//! Getting the file out of an archived artifact.
//!
//! An artifact is exactly one installed file, so the archive must hold exactly one file, which is
//! the artifact. Nothing here guesses: an archive holding several files is an error rather than a
//! pick by name, and directory entries are skipped rather than counted.

use std::io::Read;

use vstd::prelude::*;

use crate::artifact::{ArchiveFormat, FormatFacts};

verus! {

/// Why an archive yields no file.
#[derive(Debug, PartialEq, Eq)]
pub enum ArchiveError {
    Malformed { uri: String, reason: String },
    NonZeroFiles { uri: String },
    Empty { uri: String },
    UnsupportedFormat { uri: String, format: String },
}

/// What an [`ArchiveError`] holds.
#[verifier::ext_equal]
pub enum ArchiveErrorFacts {
    Malformed { uri: Seq<char>, reason: Seq<char> },
    NonZeroFiles { uri: Seq<char> },
    Empty { uri: Seq<char> },
    UnsupportedFormat { uri: Seq<char>, format: Seq<char> },
}

impl DeepView for ArchiveError {
    type V = ArchiveErrorFacts;

    open spec fn deep_view(&self) -> ArchiveErrorFacts {
        match self {
            ArchiveError::Malformed { uri, reason } => ArchiveErrorFacts::Malformed {
                uri: uri@,
                reason: reason@,
            },
            ArchiveError::NonZeroFiles { uri } => ArchiveErrorFacts::NonZeroFiles { uri: uri@ },
            ArchiveError::Empty { uri } => ArchiveErrorFacts::Empty { uri: uri@ },
            ArchiveError::UnsupportedFormat { uri, format } =>
                ArchiveErrorFacts::UnsupportedFormat { uri: uri@, format: format@ },
        }
    }
}

/// What went wrong with an archive, in words.
pub open spec fn archive_error_text(e: ArchiveErrorFacts) -> Seq<char> {
    match e {
        ArchiveErrorFacts::Malformed { uri, reason } =>
            "failed to read the archive fetched from '"@ + uri + "': "@ + reason,
        ArchiveErrorFacts::NonZeroFiles { uri } => "the archive fetched from '"@ + uri
            + "' contains more than one file"@,
        ArchiveErrorFacts::Empty { uri } => "the archive fetched from '"@ + uri
            + "' contains no files at all"@,
        ArchiveErrorFacts::UnsupportedFormat { uri, format } => "the archive fetched from '"@ + uri
            + "' is packaged as '"@ + format + "', which midenup cannot read"@,
    }
}

impl ArchiveError {
    /// What went wrong, in words.
    pub fn to_string(&self) -> (s: String)
        ensures
            s@ == archive_error_text(self.deep_view()),
    {
        match self {
            ArchiveError::Malformed { uri, reason } => {
                let mut s = "failed to read the archive fetched from '".to_owned();
                s.append(uri.as_str());
                s.append("': ");
                s.append(reason.as_str());
                s
            },
            ArchiveError::NonZeroFiles { uri } => {
                let mut s = "the archive fetched from '".to_owned();
                s.append(uri.as_str());
                s.append("' contains more than one file");
                s
            },
            ArchiveError::Empty { uri } => {
                let mut s = "the archive fetched from '".to_owned();
                s.append(uri.as_str());
                s.append("' contains no files at all");
                s
            },
            ArchiveError::UnsupportedFormat { uri, format } => {
                let mut s = "the archive fetched from '".to_owned();
                s.append(uri.as_str());
                s.append("' is packaged as '");
                s.append(format.as_str());
                s.append("', which midenup cannot read");
                s
            },
        }
    }
}

/// What an archive's entries amount to: of each, whether it is a regular file, rather than a
/// directory, a link or anything else; or why it, or the archive, could not be read.
pub open spec fn listing_facts(listing: Result<Vec<Result<bool, String>>, String>) -> Result<
    Seq<Result<bool, Seq<char>>>,
    Seq<char>,
> {
    match listing {
        Ok(entries) => Ok(entries@.map_values(|e: Result<bool, String>| entry_facts(e))),
        Err(reason) => Err(reason@),
    }
}

/// What one entry amounts to.
pub open spec fn entry_facts(entry: Result<bool, String>) -> Result<bool, Seq<char>> {
    match entry {
        Ok(is_file) => Ok(is_file),
        Err(reason) => Err(reason@),
    }
}

/// What reading one entry amounts to: its contents, or why they could not be read.
pub open spec fn contents_facts(contents: Result<Vec<u8>, String>) -> Result<Seq<u8>, Seq<char>> {
    match contents {
        Ok(bytes) => Ok(bytes@),
        Err(reason) => Err(reason@),
    }
}

/// The entries of a gzip-compressed tar archive, in their order: of each, whether it is a regular
/// file.
pub uninterp spec fn tar_gz_entries(body: Seq<u8>) -> Result<
    Seq<Result<bool, Seq<char>>>,
    Seq<char>,
>;

/// The contents of one entry of a gzip-compressed tar archive.
pub uninterp spec fn tar_gz_contents(body: Seq<u8>, i: int) -> Result<Seq<u8>, Seq<char>>;

/// `tar::Archive::entries` over `flate2::read::GzDecoder`: the entries of the archive in their
/// order, each with whether it is a regular file. No contents are kept. What an archive holds depends
/// on its bytes alone; how the two formats lay it out is not stated here.
#[verifier::external_body]
fn tar_gz_listing(body: &[u8]) -> (r: Result<Vec<Result<bool, String>>, String>)
    ensures
        listing_facts(r) == tar_gz_entries(body@),
{
    let mut archive = tar::Archive::new(flate2::read::GzDecoder::new(body));
    let entries = archive.entries().map_err(|e| e.to_string())?;
    let kind = |entry: tar::Entry<flate2::read::GzDecoder<&[u8]>>| {
        entry.header().entry_type().is_file()
    };
    Ok(entries.map(|entry| entry.map(kind).map_err(|e| e.to_string())).collect())
}

/// `std::io::Read::read_to_end` on one of the entries of a `tar::Archive` over
/// `flate2::read::GzDecoder`: the contents of the entry `i`, which depend on the archive's bytes
/// alone. The entry is one of those that are listed.
#[verifier::external_body]
fn tar_gz_file(body: &[u8], i: usize) -> (r: Result<Vec<u8>, String>)
    requires
        tar_gz_entries(body@) is Ok,
        i < tar_gz_entries(body@)->Ok_0.len(),
    ensures
        contents_facts(r) == tar_gz_contents(body@, i as int),
{
    let mut archive = tar::Archive::new(flate2::read::GzDecoder::new(body));
    let mut entries = archive.entries().map_err(|e| e.to_string())?;
    let mut entry = entries.nth(i).unwrap().map_err(|e| e.to_string())?;
    let mut bytes = Vec::new();
    entry.read_to_end(&mut bytes).map_err(|e| e.to_string())?;
    Ok(bytes)
}

/// The first regular file from position `i` on, unless an entry before it cannot be read.
pub open spec fn first_file(entries: Seq<Result<bool, Seq<char>>>, i: int) -> Option<int>
    decreases entries.len() - i,
{
    if i >= entries.len() {
        None
    } else {
        match entries[i] {
            Err(_) => None,
            Ok(is_file) => if is_file {
                Some(i)
            } else {
                first_file(entries, i + 1)
            },
        }
    }
}

/// Finds the first regular file of a listing.
fn find_first_file(entries: &Vec<Result<bool, String>>) -> (r: Option<usize>)
    ensures
        (match r {
            Some(i) => Some(i as int),
            None => None,
        }) == first_file(entries@.map_values(|e: Result<bool, String>| entry_facts(e)), 0),
        r matches Some(i) ==> i < entries@.len(),
{
    let ghost all = entries@.map_values(|e: Result<bool, String>| entry_facts(e));
    let mut i: usize = 0;
    while i < entries.len()
        invariant
            i <= entries@.len(),
            all == entries@.map_values(|e: Result<bool, String>| entry_facts(e)),
            first_file(all, 0) == first_file(all, i as int),
        decreases entries.len() - i,
    {
        assert(all[i as int] == entry_facts(entries@[i as int]));
        match &entries[i] {
            Err(_) => return None,
            Ok(is_file) => if *is_file {
                return Some(i);
            },
        }
        i += 1;
    }
    None
}

/// The contents of the sole regular file among the entries, where reading the first such file gave
/// `contents`. `seen` tells whether that one came before them.
pub open spec fn sole_file(
    entries: Seq<Result<bool, Seq<char>>>,
    contents: Result<Seq<u8>, Seq<char>>,
    seen: bool,
    uri: Seq<char>,
) -> Result<Seq<u8>, ArchiveErrorFacts>
    decreases entries.len(),
{
    if entries.len() == 0 {
        match contents {
            Ok(bytes) if seen => Ok(bytes),
            _ => Err(ArchiveErrorFacts::Empty { uri }),
        }
    } else {
        match entries[0] {
            Err(reason) => Err(ArchiveErrorFacts::Malformed { uri, reason }),
            Ok(is_file) => if !is_file {
                sole_file(entries.drop_first(), contents, seen, uri)
            } else if seen {
                Err(ArchiveErrorFacts::NonZeroFiles { uri })
            } else {
                match contents {
                    Err(reason) => Err(ArchiveErrorFacts::Malformed { uri, reason }),
                    Ok(_) => sole_file(entries.drop_first(), contents, true, uri),
                }
            },
        }
    }
}

/// The sole regular file of a listing.
pub open spec fn listed_file(
    listing: Result<Seq<Result<bool, Seq<char>>>, Seq<char>>,
    contents: Result<Seq<u8>, Seq<char>>,
    uri: Seq<char>,
) -> Result<Seq<u8>, ArchiveErrorFacts> {
    match listing {
        Err(reason) => Err(ArchiveErrorFacts::Malformed { uri, reason }),
        Ok(entries) => sole_file(entries, contents, false, uri),
    }
}

/// Whether a result is the one that the facts give.
pub open spec fn yields(
    r: Result<Vec<u8>, ArchiveError>,
    facts: Result<Seq<u8>, ArchiveErrorFacts>,
) -> bool {
    match r {
        Ok(bytes) => facts == Ok::<Seq<u8>, ArchiveErrorFacts>(bytes@),
        Err(e) => facts == Err::<Seq<u8>, ArchiveErrorFacts>(e.deep_view()),
    }
}

/// Picks the sole regular file out of the entries of a tar archive, of which reading the first such
/// file gave `contents`.
pub fn from_tar(
    listing: &Result<Vec<Result<bool, String>>, String>,
    contents: Result<Vec<u8>, String>,
    uri: &str,
) -> (r: Result<Vec<u8>, ArchiveError>)
    ensures
        yields(r, listed_file(listing_facts(*listing), contents_facts(contents), uri@)),
{
    let entries = match listing {
        Ok(entries) => entries,
        Err(reason) => return Err(
            ArchiveError::Malformed { uri: uri.to_owned(), reason: reason.clone() },
        ),
    };
    let ghost all = entries@.map_values(|e: Result<bool, String>| entry_facts(e));
    let ghost read = contents_facts(contents);
    let mut seen = false;
    let mut i: usize = 0;
    assert(all.skip(0) =~= all);
    while i < entries.len()
        invariant
            i <= entries@.len(),
            all == entries@.map_values(|e: Result<bool, String>| entry_facts(e)),
            sole_file(all, read, false, uri@) == sole_file(
                all.skip(i as int),
                read,
                seen,
                uri@,
            ),
            read == contents_facts(contents),
            listed_file(listing_facts(*listing), read, uri@) == sole_file(all, read, false, uri@),
        decreases entries.len() - i,
    {
        proof {
            assert(all[i as int] == entry_facts(entries@[i as int]));
            assert(all.skip(i as int)[0] == all[i as int]);
            assert(all.skip(i as int).drop_first() =~= all.skip(i + 1));
        }
        match &entries[i] {
            Err(reason) => return Err(
                ArchiveError::Malformed { uri: uri.to_owned(), reason: reason.clone() },
            ),
            // A directory is no candidate, and neither is a link or any other special entry.
            Ok(is_file) => if *is_file {
                // A second file settles it.
                if seen {
                    return Err(ArchiveError::NonZeroFiles { uri: uri.to_owned() });
                }
                if let Err(reason) = &contents {
                    return Err(
                        ArchiveError::Malformed { uri: uri.to_owned(), reason: reason.clone() },
                    );
                }
                seen = true;
            },
        }
        i += 1;
    }
    assert(all.skip(all.len() as int) =~= Seq::empty());
    match contents {
        Ok(bytes) if seen => Ok(bytes),
        _ => Err(ArchiveError::Empty { uri: uri.to_owned() }),
    }
}

/// What reading the first regular file of a gzip-compressed tar archive gives; nothing where there is
/// none to read.
pub open spec fn first_contents(body: Seq<u8>) -> Result<Seq<u8>, Seq<char>> {
    match tar_gz_entries(body) {
        Ok(entries) => match first_file(entries, 0) {
            Some(i) => tar_gz_contents(body, i),
            None => Ok(Seq::empty()),
        },
        Err(_) => Ok(Seq::empty()),
    }
}

/// The one file that `body` holds, as packaged by `format`.
pub open spec fn unpacked(body: Seq<u8>, format: FormatFacts, uri: Seq<char>) -> Result<
    Seq<u8>,
    ArchiveErrorFacts,
> {
    match format {
        FormatFacts::TarGz => listed_file(tar_gz_entries(body), first_contents(body), uri),
        FormatFacts::Unsupported(spelling) => Err(
            ArchiveErrorFacts::UnsupportedFormat { uri, format: spelling },
        ),
    }
}

/// Reads the one file `body` holds, as packaged by `format`. `uri` is only used to say what failed.
pub fn file(body: &[u8], format: &ArchiveFormat, uri: &str) -> (r: Result<Vec<u8>, ArchiveError>)
    ensures
        yields(r, unpacked(body@, format.deep_view(), uri@)),
{
    match format {
        ArchiveFormat::TarGz => {
            let listing = tar_gz_listing(body);
            let first = match &listing {
                Ok(entries) => find_first_file(entries),
                Err(_) => None,
            };
            let contents = match first {
                Some(i) => tar_gz_file(body, i),
                None => Ok(Vec::new()),
            };
            assert(contents_facts(contents) =~= first_contents(body@));
            from_tar(&listing, contents, uri)
        },
        ArchiveFormat::Unsupported(_) => Err(
            ArchiveError::UnsupportedFormat {
                uri: uri.to_owned(),
                format: format.to_string(),
            },
        ),
    }
}

// ---------------------------------------------------------------------------------------------
// Laws

/// Whether an entry can be read and is a regular file.
pub open spec fn is_regular(entry: Result<bool, Seq<char>>) -> bool {
    entry == Ok::<bool, Seq<char>>(true)
}

/// Whether an entry can be read and is no regular file.
pub open spec fn is_other(entry: Result<bool, Seq<char>>) -> bool {
    entry == Ok::<bool, Seq<char>>(false)
}

/// Whether the entry at `i` is a regular file, and every other one can be read and is none.
pub open spec fn is_sole(entries: Seq<Result<bool, Seq<char>>>, i: int) -> bool {
    &&& 0 <= i < entries.len()
    &&& is_regular(entries[i])
    &&& forall|j: int| 0 <= j < entries.len() && j != i ==> is_other(#[trigger] entries[j])
}

proof fn nothing_more(
    entries: Seq<Result<bool, Seq<char>>>,
    contents: Result<Seq<u8>, Seq<char>>,
    uri: Seq<char>,
)
    requires
        contents is Ok,
    ensures
        sole_file(entries, contents, true, uri) is Ok <==> forall|j: int|
            0 <= j < entries.len() ==> is_other(#[trigger] entries[j]),
        sole_file(entries, contents, true, uri) matches Ok(bytes) ==> bytes == contents->Ok_0,
    decreases entries.len(),
{
    if entries.len() > 0 {
        let rest = entries.drop_first();
        nothing_more(rest, contents, uri);
        if forall|j: int| 0 <= j < entries.len() ==> is_other(#[trigger] entries[j]) {
            assert forall|j: int| 0 <= j < rest.len() implies is_other(#[trigger] rest[j]) by {
                assert(rest[j] == entries[j + 1]);
            }
            assert(is_other(entries[0]));
        }
        if sole_file(entries, contents, true, uri) is Ok {
            assert forall|j: int| 0 <= j < entries.len() implies is_other(#[trigger] entries[j]) by {
                if j > 0 {
                    assert(rest[j - 1] == entries[j]);
                }
            }
        }
    }
}

/// A file is read out of an archive exactly where the archive holds one regular file, that can be
/// read, and nothing unreadable beside it; and then it is that file.
pub proof fn only_a_sole_file_is_read(
    entries: Seq<Result<bool, Seq<char>>>,
    contents: Result<Seq<u8>, Seq<char>>,
    uri: Seq<char>,
    bytes: Seq<u8>,
)
    ensures
        sole_file(entries, contents, false, uri) == Ok::<Seq<u8>, ArchiveErrorFacts>(bytes) <==> (
        contents == Ok::<Seq<u8>, Seq<char>>(bytes) && exists|i: int| #[trigger]
            is_sole(entries, i)),
        forall|i: int| #[trigger] is_sole(entries, i) ==> first_file(entries, 0) == Some(i),
    decreases entries.len(),
{
    assert forall|i: int| #[trigger] is_sole(entries, i) implies first_file(entries, 0) == Some(
        i,
    ) by {
        first_is_sole(entries, i, 0);
    }
    if entries.len() > 0 {
        let rest = entries.drop_first();
        only_a_sole_file_is_read(rest, contents, uri, bytes);
        if contents is Ok {
            nothing_more(rest, contents, uri);
        }
        if sole_file(entries, contents, false, uri) == Ok::<Seq<u8>, ArchiveErrorFacts>(bytes) {
            let i = if is_regular(entries[0]) {
                0
            } else {
                1 + choose|i: int| #[trigger] is_sole(rest, i)
            };
            assert(i > 0 ==> is_sole(rest, i - 1) && rest[i - 1] == entries[i]);
            assert forall|j: int| 0 <= j < entries.len() && j != i implies is_other(
                #[trigger] entries[j],
            ) by {
                if j > 0 {
                    assert(rest[j - 1] == entries[j]);
                }
            }
            assert(is_sole(entries, i));
        }
        if contents == Ok::<Seq<u8>, Seq<char>>(bytes) && exists|i: int| #[trigger]
            is_sole(entries, i) {
            let i = choose|i: int| #[trigger] is_sole(entries, i);
            assert forall|j: int| 0 <= j < rest.len() && j != i - 1 implies is_other(
                #[trigger] rest[j],
            ) by {
                assert(rest[j] == entries[j + 1]);
            }
            if i > 0 {
                assert(is_other(entries[0]));
                assert(rest[i - 1] == entries[i]);
                assert(is_sole(rest, i - 1));
            }
        }
    }
}

proof fn first_is_sole(entries: Seq<Result<bool, Seq<char>>>, i: int, from: int)
    requires
        is_sole(entries, i),
        0 <= from <= i,
    ensures
        first_file(entries, from) == Some(i),
    decreases i - from,
{
    if from < i {
        assert(is_other(entries[from]));
        first_is_sole(entries, i, from + 1);
    }
}

} // verus!
