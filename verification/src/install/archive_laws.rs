//! What an archive yields, entry by entry.

use vstd::prelude::*;

use crate::artifact::FormatFacts;
use crate::install::archive;
use crate::install::archive::ArchiveErrorFacts;

verus! {

/// Whether an entry is a regular file.
pub open spec fn is_file(entry: Result<bool, Seq<char>>) -> bool {
    entry matches Ok(regular) && regular
}

/// Whether all the entries before `n` can be read and are no regular files, but for those at `except`.
pub open spec fn only_others(entries: Seq<Result<bool, Seq<char>>>, n: int, except: int) -> bool {
    forall|j: int|
        0 <= j < n && j != except ==> ((#[trigger] entries[j]) matches Ok(regular) && !regular)
}

proof fn drops(entries: Seq<Result<bool, Seq<char>>>, n: int, except: int)
    requires
        0 < n <= entries.len(),
    ensures
        except != 0 ==> (only_others(entries, n, except) <==> (entries[0] matches Ok(regular)
            && !regular) && only_others(entries.drop_first(), n - 1, except - 1)),
        except == 0 ==> (only_others(entries, n, except) <==> only_others(
            entries.drop_first(),
            n - 1,
            -1,
        )),
{
    let d = entries.drop_first();
    let shifted: int = if except == 0 {
        -1
    } else {
        except - 1
    };
    if only_others(entries, n, except) {
        assert forall|j: int| 0 <= j < n - 1 && j != shifted implies ((#[trigger] d[j]) matches Ok(
            regular,
        ) && !regular) by {
            assert(entries[j + 1] == d[j]);
        }
    }
    if only_others(d, n - 1, shifted) && (except == 0 || (entries[0] matches Ok(regular)
        && !regular)) {
        assert forall|j: int| 0 <= j < n && j != except implies ((
        #[trigger] entries[j]) matches Ok(regular) && !regular) by {
            if j > 0 {
                assert(d[j - 1] == entries[j]);
            }
        }
    }
}

/// An entry that cannot be read spoils the archive, with its own reason, unless a second file comes
/// before it.
pub proof fn unreadable_entries_spoil_the_archive(
    entries: Seq<Result<bool, Seq<char>>>,
    contents: Result<Seq<u8>, Seq<char>>,
    uri: Seq<char>,
    k: int,
    first: int,
)
    requires
        0 <= k < entries.len(),
        entries[k] is Err,
        only_others(entries, k, first),
        0 <= first < k ==> is_file(entries[first]) && contents is Ok,
    ensures
        archive::sole_file(entries, contents, false, uri) == Err::<Seq<u8>, ArchiveErrorFacts>(
            ArchiveErrorFacts::Malformed { uri, reason: entries[k]->Err_0 },
        ),
{
    spoils(entries, contents, false, uri, k, first);
}

proof fn spoils(
    entries: Seq<Result<bool, Seq<char>>>,
    contents: Result<Seq<u8>, Seq<char>>,
    seen: bool,
    uri: Seq<char>,
    k: int,
    first: int,
)
    requires
        0 <= k < entries.len(),
        entries[k] is Err,
        only_others(entries, k, first),
        0 <= first < k ==> is_file(entries[first]) && contents is Ok && !seen,
    ensures
        archive::sole_file(entries, contents, seen, uri) == Err::<Seq<u8>, ArchiveErrorFacts>(
            ArchiveErrorFacts::Malformed { uri, reason: entries[k]->Err_0 },
        ),
    decreases k,
{
    if k > 0 {
        drops(entries, k, first);
        let d = entries.drop_first();
        assert(d[k - 1] == entries[k]);
        if first == 0 {
            spoils(d, contents, true, uri, k - 1, -1);
        } else {
            assert(0 <= first - 1 < k - 1 ==> d[first - 1] == entries[first]);
            spoils(d, contents, seen, uri, k - 1, first - 1);
        }
    }
}

/// A second file is one too many, whatever follows it.
pub proof fn a_second_file_is_one_too_many(
    entries: Seq<Result<bool, Seq<char>>>,
    contents: Result<Seq<u8>, Seq<char>>,
    uri: Seq<char>,
    first: int,
    second: int,
)
    requires
        0 <= first < second < entries.len(),
        is_file(entries[first]),
        is_file(entries[second]),
        only_others(entries, second, first),
        contents is Ok,
    ensures
        archive::sole_file(entries, contents, false, uri) == Err::<Seq<u8>, ArchiveErrorFacts>(
            ArchiveErrorFacts::NonZeroFiles { uri },
        ),
{
    too_many(entries, contents, false, uri, first, second);
}

proof fn too_many(
    entries: Seq<Result<bool, Seq<char>>>,
    contents: Result<Seq<u8>, Seq<char>>,
    seen: bool,
    uri: Seq<char>,
    first: int,
    second: int,
)
    requires
        0 <= second < entries.len(),
        is_file(entries[second]),
        only_others(entries, second, first),
        if seen {
            first < 0
        } else {
            0 <= first < second && is_file(entries[first])
        },
        contents is Ok,
    ensures
        archive::sole_file(entries, contents, seen, uri) == Err::<Seq<u8>, ArchiveErrorFacts>(
            ArchiveErrorFacts::NonZeroFiles { uri },
        ),
    decreases second,
{
    if second > 0 {
        drops(entries, second, first);
        let d = entries.drop_first();
        assert(d[second - 1] == entries[second]);
        if first == 0 {
            too_many(d, contents, true, uri, -1, second - 1);
        } else {
            assert(first > 0 ==> d[first - 1] == entries[first]);
            too_many(d, contents, seen, uri, first - 1, second - 1);
        }
    }
}

/// An archive without a file is empty, and a file that cannot be read spoils its archive with its own
/// reason.
pub proof fn a_file_is_needed(
    entries: Seq<Result<bool, Seq<char>>>,
    contents: Result<Seq<u8>, Seq<char>>,
    uri: Seq<char>,
    first: int,
)
    ensures
        only_others(entries, entries.len() as int, -1) ==> archive::sole_file(
            entries,
            contents,
            false,
            uri,
        ) == Err::<Seq<u8>, ArchiveErrorFacts>(ArchiveErrorFacts::Empty { uri }),
        0 <= first < entries.len() && is_file(entries[first]) && only_others(entries, first, -1)
            && contents is Err ==> archive::sole_file(entries, contents, false, uri) == Err::<
            Seq<u8>,
            ArchiveErrorFacts,
        >(ArchiveErrorFacts::Malformed { uri, reason: contents->Err_0 }),
    decreases entries.len(),
{
    if entries.len() > 0 {
        let d = entries.drop_first();
        drops(entries, entries.len() as int, -1);
        assert(only_others(entries, entries.len() as int, -1) ==> only_others(
            d,
            d.len() as int,
            -1,
        )) by {
            if only_others(entries, entries.len() as int, -1) {
                assert forall|j: int| 0 <= j < d.len() && j != -1 implies ((
                #[trigger] d[j]) matches Ok(regular) && !regular) by {
                    assert(entries[j + 1] == d[j]);
                }
            }
        }
        if 0 < first < entries.len() {
            assert(only_others(entries, first, -1) ==> only_others(d, first - 1, -1)) by {
                if only_others(entries, first, -1) {
                    assert forall|j: int| 0 <= j < first - 1 && j != -1 implies ((
                    #[trigger] d[j]) matches Ok(regular) && !regular) by {
                        assert(entries[j + 1] == d[j]);
                    }
                }
            }
            assert(d[first - 1] == entries[first]);
            assert(only_others(entries, first, -1) ==> (entries[0] matches Ok(regular)
                && !regular));
        }
        a_file_is_needed(d, contents, uri, first - 1);
    }
}

/// An archive that cannot be opened is malformed with its own reason; a packaging that cannot be read
/// is refused by its spelling; and anything else yields what its entries and the contents of its first
/// file yield.
pub proof fn packagings_decide_how_a_body_is_read(
    body: Seq<u8>,
    format: FormatFacts,
    uri: Seq<char>,
    first: int,
)
    ensures
        match format {
            FormatFacts::Unsupported(spelling) => archive::unpacked(body, format, uri) == Err::<
                Seq<u8>,
                ArchiveErrorFacts,
            >(ArchiveErrorFacts::UnsupportedFormat { uri, format: spelling }),
            FormatFacts::TarGz => match archive::tar_gz_entries(body) {
                Err(reason) => archive::unpacked(body, format, uri) == Err::<
                    Seq<u8>,
                    ArchiveErrorFacts,
                >(ArchiveErrorFacts::Malformed { uri, reason }),
                Ok(entries) => 0 <= first < entries.len() && is_file(entries[first]) && only_others(
                    entries,
                    first,
                    -1,
                ) ==> archive::unpacked(body, format, uri) == archive::sole_file(
                    entries,
                    archive::tar_gz_contents(body, first),
                    false,
                    uri,
                ),
            },
        },
{
    if format is TarGz && archive::tar_gz_entries(body) is Ok {
        let entries = archive::tar_gz_entries(body)->Ok_0;
        if 0 <= first < entries.len() && is_file(entries[first]) && only_others(entries, first, -1) {
            found_first(entries, 0, first);
        }
    }
}

proof fn found_first(entries: Seq<Result<bool, Seq<char>>>, from: int, first: int)
    requires
        0 <= from <= first < entries.len(),
        is_file(entries[first]),
        only_others(entries, first, -1),
    ensures
        archive::first_file(entries, from) == Some(first),
    decreases first - from,
{
    if from < first {
        assert(entries[from] matches Ok(regular) && !regular);
        found_first(entries, from + 1, first);
    }
}

} // verus!
