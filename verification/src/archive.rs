//! The dataset archive: which member holds the records.

use vstd::prelude::*;
use crate::error::{ErrorKind, RefreshError};
use crate::outside::{
    archive_members,
    match_pattern,
    member_content,
    member_count,
    member_name,
    open_archive,
    pattern_match,
    zip_members,
};

verus! {

/// The regular expression that the name of the data file matches.
pub const DATA_FILE_PATTERN: &'static str = "nl.*\\.csv";

/// Whether the regular expression `pattern` matches somewhere in `name`.
/// A pattern that is no regular expression matches no name.
pub open spec fn name_matches(pattern: Seq<char>, name: Seq<char>) -> bool {
    pattern_match(pattern, name) == Some(true)
}

/// Whether the search through the members ends at one: it cannot be
/// opened (`None`), or its name is that of the data file (`Some(true)`).
pub open spec fn ends_search(candidate: Option<bool>) -> bool {
    candidate != Some(false)
}

/// The position of the first candidate at or after `from` at which the
/// search ends, or the number of candidates if there is none.
pub open spec fn first_ending(candidates: Seq<Option<bool>>, from: int) -> int
    decreases candidates.len() - from,
{
    if from < 0 || from >= candidates.len() {
        candidates.len() as int
    } else if ends_search(candidates[from]) {
        from
    } else {
        first_ending(candidates, from + 1)
    }
}

/// Which member is the data file: the first whose name matches, provided
/// that every member before it can be opened.
pub open spec fn picked(candidates: Seq<Option<bool>>) -> Result<int, ErrorKind> {
    let at = first_ending(candidates, 0);
    if at >= candidates.len() {
        Err(ErrorKind::FileNotFound)
    } else if candidates[at] is None {
        Err(ErrorKind::InvalidZip)
    } else {
        Ok(at)
    }
}

/// Where the search through `candidates` ends at position `at`, that
/// member decides: it is the data file, or the archive is invalid.
pub proof fn lemma_search_ends_at_first(candidates: Seq<Option<bool>>, at: int)
    requires
        0 <= at < candidates.len(),
        ends_search(candidates[at]),
        forall|i: int| 0 <= i < at ==> candidates[i] == Some(false),
    ensures
        picked(candidates) == (if candidates[at] is None {
            Err::<int, ErrorKind>(ErrorKind::InvalidZip)
        } else {
            Ok(at)
        }),
{
    lemma_first_ending(candidates, 0, at);
}

/// Where no member's name matches and every member can be opened, there
/// is no data file.
pub proof fn lemma_search_finds_none(candidates: Seq<Option<bool>>)
    requires
        forall|i: int| 0 <= i < candidates.len() ==> candidates[i] == Some(false),
    ensures
        picked(candidates) == Err::<int, ErrorKind>(ErrorKind::FileNotFound),
{
    lemma_first_ending_none(candidates, 0);
}

proof fn lemma_first_ending(candidates: Seq<Option<bool>>, from: int, at: int)
    requires
        0 <= from <= at < candidates.len(),
        ends_search(candidates[at]),
        forall|i: int| from <= i < at ==> candidates[i] == Some(false),
    ensures
        first_ending(candidates, from) == at,
    decreases at - from,
{
    if from < at {
        lemma_first_ending(candidates, from + 1, at);
    }
}

proof fn lemma_first_ending_none(candidates: Seq<Option<bool>>, from: int)
    requires
        0 <= from,
        forall|i: int| from <= i < candidates.len() ==> candidates[i] == Some(false),
    ensures
        first_ending(candidates, from) == candidates.len(),
    decreases candidates.len() - from,
{
    if from < candidates.len() {
        lemma_first_ending_none(candidates, from + 1);
    }
}

/// Picks the data file among the members of an archive. `candidates`
/// holds, for each member in stored order, whether its name matches the
/// pattern of the data file, or `None` where the member cannot be opened.
pub fn pick_data_file(candidates: &Vec<Option<bool>>) -> (result: Result<usize, RefreshError>)
    ensures
        match result {
            Ok(at) => picked(candidates@) == Ok::<int, ErrorKind>(at as int),
            Err(error) => picked(candidates@) == Err::<int, ErrorKind>(error.kind()),
        },
        result matches Err(error) ==> error.kind() == ErrorKind::FileNotFound || error.kind()
            == ErrorKind::InvalidZip,
{
    let mut at: usize = 0;
    while at < candidates.len()
        invariant
            at <= candidates.len(),
            forall|i: int| 0 <= i < at ==> candidates@[i] == Some(false),
        decreases candidates.len() - at,
    {
        match candidates[at] {
            None => {
                proof {
                    lemma_search_ends_at_first(candidates@, at as int);
                }
                return Err(
                    RefreshError::InvalidZip("a member of the archive cannot be opened".to_owned()),
                );
            },
            Some(true) => {
                proof {
                    lemma_search_ends_at_first(candidates@, at as int);
                }
                return Ok(at);
            },
            Some(false) => {},
        }
        at += 1;
    }
    proof {
        lemma_search_finds_none(candidates@);
    }
    Err(RefreshError::FileNotFound)
}

/// For each member, whether its name matches `pattern`, or `None` where
/// the member cannot be opened.
pub open spec fn candidates_of(
    members: Seq<Option<(Seq<char>, Option<Seq<u8>>)>>,
    pattern: Seq<char>,
) -> Seq<Option<bool>> {
    Seq::new(
        members.len(),
        |i: int|
            match members[i] {
                Some(member) => Some(name_matches(pattern, member.0)),
                None => None,
            },
    )
}

/// The content of the member among `members` that [`picked`] names for
/// `pattern`. A member whose content cannot be read is a data error.
pub open spec fn member_of(
    members: Seq<Option<(Seq<char>, Option<Seq<u8>>)>>,
    pattern: Seq<char>,
) -> Result<Seq<u8>, ErrorKind> {
    match picked(candidates_of(members, pattern)) {
        Err(kind) => Err(kind),
        Ok(at) => match members[at] {
            Some((_, Some(content))) => Ok(content),
            _ => Err(ErrorKind::InvalidData),
        },
    }
}

/// The content of the first member of the archive `data` whose name
/// matches `pattern`. Bytes that are no zip archive give `InvalidZip`.
pub open spec fn located_member(data: Seq<u8>, pattern: Seq<char>) -> Result<Seq<u8>, ErrorKind> {
    match zip_members(data) {
        None => Err(ErrorKind::InvalidZip),
        Some(members) => member_of(members, pattern),
    }
}

/// The content of the data file in the archive `data`.
pub open spec fn located(data: Seq<u8>) -> Result<Seq<u8>, ErrorKind> {
    located_member(data, DATA_FILE_PATTERN@)
}

/// Opens the archive, goes through its members in stored order and
/// returns the decompressed content of the first whose name matches
/// [`DATA_FILE_PATTERN`].
pub fn locate_data_file(archive: Vec<u8>) -> (result: Result<Vec<u8>, RefreshError>)
    ensures
        match result {
            Ok(content) => located(archive@) == Ok::<Seq<u8>, ErrorKind>(content@),
            Err(error) => located(archive@) == Err::<Seq<u8>, ErrorKind>(error.kind()),
        },
{
    locate_member(archive, DATA_FILE_PATTERN)
}

/// Opens the archive, goes through its members in stored order and
/// returns the decompressed content of the first whose name the regular
/// expression `pattern` matches. No member matches a pattern that is no
/// regular expression. The members after the first that matches or
/// cannot be found are not looked at, and only the member that matches
/// is read; it is read whole.
pub fn locate_member(archive: Vec<u8>, pattern: &str) -> (result: Result<Vec<u8>, RefreshError>)
    ensures
        match result {
            Ok(content) => located_member(archive@, pattern@) == Ok::<Seq<u8>, ErrorKind>(content@),
            Err(error) => located_member(archive@, pattern@) == Err::<Seq<u8>, ErrorKind>(
                error.kind(),
            ),
        },
{
    let ghost data = archive@;
    let mut opened = match open_archive(archive) {
        Ok(opened) => opened,
        Err(complaint) => {
            return Err(RefreshError::InvalidZip(complaint.to_string()));
        },
    };
    let ghost members = archive_members(opened);
    let ghost all = candidates_of(members, pattern@);
    let count = member_count(&opened);
    let mut candidates: Vec<Option<bool>> = Vec::new();
    let mut ended = false;
    while candidates.len() < count && !ended
        invariant
            candidates.len() <= count,
            count == members.len(),
            archive_members(opened) == members,
            all == candidates_of(members, pattern@),
            forall|i: int| 0 <= i < candidates.len() ==> candidates@[i] == all[i],
            forall|i: int|
                0 <= i < candidates.len() - (if ended { 1int } else { 0int })
                    ==> candidates@[i] == Some(false),
            ended ==> candidates.len() > 0 && ends_search(candidates@[candidates.len() - 1]),
        decreases count - candidates.len() + (if ended { 0int } else { 1int }),
    {
        let at = candidates.len();
        let candidate = match member_name(&mut opened, at) {
            Ok(name) => Some(
                match match_pattern(pattern, name.as_str()) {
                    Some(matched) => matched,
                    None => false,
                },
            ),
            Err(_) => None,
        };
        ended = !matches!(candidate, Some(false));
        candidates.push(candidate);
    }
    proof {
        if ended {
            let last = candidates.len() - 1;
            lemma_search_ends_at_first(candidates@, last);
            lemma_search_ends_at_first(all, last);
        } else {
            lemma_search_finds_none(candidates@);
            assert(candidates@ =~= all);
        }
        assert(picked(candidates@) == picked(all));
    }
    let index = pick_data_file(&candidates)?;
    match member_content(&mut opened, index) {
        Ok(content) => Ok(content),
        Err(complaint) => Err(RefreshError::InvalidData(complaint.to_string())),
    }
}

} // verus!
