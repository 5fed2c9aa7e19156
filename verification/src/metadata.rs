//! What is recorded of a file, given what the file system says of it.
use vstd::prelude::*;
use vstd::string::*;

use crate::model::{FileInfo, FileRecord, FineTimes};
use crate::text::text_option;

verus! {

/// A point in time, in seconds and nanoseconds after the Unix epoch.
#[derive(Debug, Clone, Copy, PartialEq, Eq, Structural)]
pub enum Timestamp {
    Unix { seconds: u64, nanos: u32 },
    BeforeEpoch,
}

/// What the file system says of a file. Times that it does not know are `None`, and so is
/// a name that is no text.
#[derive(Debug)]
pub struct FileFacts {
    pub path: String,
    pub file_name: Option<String>,
    pub len: u64,
    pub created: Option<Timestamp>,
    pub modified: Option<Timestamp>,
}

/// Why a file cannot be recorded.
#[derive(Debug, Clone, Copy, PartialEq, Eq, Structural)]
pub enum MetadataError {
    InvalidName,
    NoTime,
    BeforeEpoch,
}

/// Seconds as a signed number; those out of its range wrap around.
pub open spec fn signed_seconds(seconds: u64) -> int {
    if seconds <= i64::MAX {
        seconds as int
    } else {
        seconds - 0x1_0000_0000_0000_0000
    }
}

/// Seconds as a signed number; those out of its range wrap around.
fn wrap_seconds(seconds: u64) -> (r: i64)
    ensures
        r == signed_seconds(seconds),
{
    if seconds <= 0x7fff_ffff_ffff_ffff {
        seconds as i64
    } else {
        let above: u64 = 0xffff_ffff_ffff_ffff - seconds;
        -1 - (above as i64)
    }
}

/// A point in time as it is recorded: in whole seconds.
pub open spec fn recorded_time(time: Option<Timestamp>) -> Result<i64, MetadataError> {
    match time {
        Some(Timestamp::Unix { seconds, .. }) => Ok(signed_seconds(seconds) as i64),
        Some(Timestamp::BeforeEpoch) => Err(MetadataError::BeforeEpoch),
        None => Err(MetadataError::NoTime),
    }
}

/// A point in time as it is recorded: in whole seconds.
pub fn system_time_to_unix(time: Option<Timestamp>) -> (r: Result<i64, MetadataError>)
    ensures
        r == recorded_time(time),
{
    match time {
        Some(Timestamp::Unix { seconds, .. }) => Ok(wrap_seconds(seconds)),
        Some(Timestamp::BeforeEpoch) => Err(MetadataError::BeforeEpoch),
        None => Err(MetadataError::NoTime),
    }
}

/// The first time, or the second where the first is unknown.
pub open spec fn either_time(
    first: Option<Timestamp>,
    second: Option<Timestamp>,
) -> Option<Timestamp> {
    match first {
        Some(_) => first,
        None => second,
    }
}

/// The first time, or the second where the first is unknown.
fn known_time(first: Option<Timestamp>, second: Option<Timestamp>) -> (r: Option<Timestamp>)
    ensures
        r == either_time(first, second),
{
    match first {
        Some(_) => first,
        None => second,
    }
}

/// By how many nanoseconds a time is past its whole seconds.
pub open spec fn nanos_of(time: Option<Timestamp>) -> u32 {
    match time {
        Some(Timestamp::Unix { nanos, .. }) => nanos,
        _ => 0,
    }
}

fn known_nanos(time: Option<Timestamp>) -> (r: u32)
    ensures
        r == nanos_of(time),
{
    match time {
        Some(Timestamp::Unix { nanos, .. }) => nanos,
        _ => 0,
    }
}

/// By how much the times of a file are past the whole seconds that are recorded of it.
pub fn fine_times(created: Option<Timestamp>, modified: Option<Timestamp>) -> (r: FineTimes)
    ensures
        r.created == nanos_of(either_time(created, modified)),
        r.modified == nanos_of(either_time(modified, created)),
        created matches Some(Timestamp::Unix { nanos, .. }) ==> r.created == nanos,
        modified matches Some(Timestamp::Unix { nanos, .. }) ==> r.modified == nanos,
        created is None ==> r.created == r.modified,
        modified is None ==> r.modified == r.created,
        created == Some(Timestamp::BeforeEpoch) ==> r.created == 0,
        modified == Some(Timestamp::BeforeEpoch) ==> r.modified == 0,
{
    FineTimes {
        created: known_nanos(known_time(created, modified)),
        modified: known_nanos(known_time(modified, created)),
    }
}

/// What is recorded of a file: nothing is hashed yet, and of the two times an unknown one
/// is taken from the other.
pub open spec fn file_record(
    path: Seq<char>,
    file_name: Option<Seq<char>>,
    len: u64,
    created: Option<Timestamp>,
    modified: Option<Timestamp>,
) -> Result<FileRecord, MetadataError> {
    match file_name {
        None => Err(MetadataError::InvalidName),
        Some(file_name) => match recorded_time(either_time(created, modified)) {
            Err(e) => Err(e),
            Ok(created_time) => match recorded_time(either_time(modified, created)) {
                Err(e) => Err(e),
                Ok(modified_time) => Ok(
                    FileRecord {
                        file_path: path,
                        file_size: len,
                        xxhash: Seq::empty(),
                        created_time,
                        modified_time,
                        file_name,
                    },
                ),
            },
        },
    }
}

/// What is recorded of a file.
pub fn process_file_metadata(facts: FileFacts) -> (r: Result<FileInfo, MetadataError>)
    ensures
        match r {
            Ok(file) => Ok(file@),
            Err(e) => Err(e),
        } == file_record(
            facts.path@,
            text_option(facts.file_name),
            facts.len,
            facts.created,
            facts.modified,
        ),
        r matches Ok(file) ==> {
            &&& file.file_path == facts.path
            &&& facts.file_name == Some(file.file_name)
            &&& file.file_size == facts.len
            &&& file.xxhash@.len() == 0
            &&& facts.created matches Some(Timestamp::Unix { seconds, .. }) ==> {
                seconds <= i64::MAX ==> file.created_time == seconds
            }
            &&& facts.modified matches Some(Timestamp::Unix { seconds, .. }) ==> {
                seconds <= i64::MAX ==> file.modified_time == seconds
            }
            &&& facts.created is None ==> file.created_time == file.modified_time
            &&& facts.modified is None ==> file.modified_time == file.created_time
        },
        r is Ok <==> {
            &&& facts.file_name is Some
            &&& facts.created is Some || facts.modified is Some
            &&& facts.created != Some(Timestamp::BeforeEpoch)
            &&& facts.modified != Some(Timestamp::BeforeEpoch)
        },
{
    let file_name: String = match facts.file_name {
        Some(name) => name,
        None => {
            return Err(MetadataError::InvalidName);
        },
    };
    let created_time: i64 = match system_time_to_unix(known_time(facts.created, facts.modified)) {
        Ok(time) => time,
        Err(e) => {
            return Err(e);
        },
    };
    let modified_time: i64 = match system_time_to_unix(known_time(facts.modified, facts.created)) {
        Ok(time) => time,
        Err(e) => {
            return Err(e);
        },
    };
    let xxhash: String = String::new();
    assert(xxhash@ =~= Seq::empty());
    Ok(
        FileInfo {
            file_path: facts.path,
            file_size: facts.len,
            xxhash,
            created_time,
            modified_time,
            file_name,
        },
    )
}

// ---------------------------------------------------------------------------
// Laws
// ---------------------------------------------------------------------------

/// What is recorded of a file is what the file system says of it: its path, its name, its
/// size, the seconds of its creation as the creation, and the seconds of its modification
/// as the modification, whichever of the two is later.
pub proof fn law_record_says_what_the_file_system_says(
    path: Seq<char>,
    name: Seq<char>,
    len: u64,
    created_seconds: u64,
    created_nanos: u32,
    modified_seconds: u64,
    modified_nanos: u32,
)
    requires
        created_seconds <= i64::MAX,
        modified_seconds <= i64::MAX,
    ensures
        file_record(
            path,
            Some(name),
            len,
            Some(Timestamp::Unix { seconds: created_seconds, nanos: created_nanos }),
            Some(Timestamp::Unix { seconds: modified_seconds, nanos: modified_nanos }),
        ) matches Ok(file) && {
            &&& file.file_path == path
            &&& file.file_name == name
            &&& file.file_size == len
            &&& file.xxhash == Seq::<char>::empty()
            &&& file.created_time == created_seconds
            &&& file.modified_time == modified_seconds
        },
{
}

/// Where only one of the two times is known, it is recorded as both.
pub proof fn law_one_time_stands_for_both(
    path: Seq<char>,
    name: Seq<char>,
    len: u64,
    seconds: u64,
    nanos: u32,
)
    requires
        seconds <= i64::MAX,
    ensures
        ({
            let time = Some(Timestamp::Unix { seconds, nanos });
            let first = file_record(path, Some(name), len, time, None);
            let second = file_record(path, Some(name), len, None, time);
            &&& first matches Ok(file) && {
                &&& file.file_path == path
                &&& file.file_name == name
                &&& file.file_size == len
                &&& file.xxhash == Seq::<char>::empty()
                &&& file.created_time == seconds
                &&& file.modified_time == seconds
            }
            &&& second == first
        }),
{
}

/// A file without a name that is a text is not recorded, nor is one without any time, nor
/// one with a time before the epoch; every other file is.
pub proof fn law_what_cannot_be_recorded(
    path: Seq<char>,
    name: Option<Seq<char>>,
    len: u64,
    created: Option<Timestamp>,
    modified: Option<Timestamp>,
)
    ensures
        ({
            let record = file_record(path, name, len, created, modified);
            let early = created == Some(Timestamp::BeforeEpoch) || modified == Some(
                Timestamp::BeforeEpoch,
            );
            &&& record == Err::<FileRecord, MetadataError>(MetadataError::InvalidName)
                <==> name is None
            &&& record == Err::<FileRecord, MetadataError>(MetadataError::NoTime) <==> name is Some
                && created is None && modified is None
            &&& record == Err::<FileRecord, MetadataError>(MetadataError::BeforeEpoch)
                <==> name is Some && early
            &&& record is Ok <==> name is Some && !early && (created is Some || modified is Some)
        }),
{
}

/// Seconds that no signed number of 64 bits can hold are recorded as the negative number
/// with the same bits; all others are recorded as they are.
pub proof fn law_seconds_wrap_around(seconds: u64, nanos: u32)
    ensures
        recorded_time(Some(Timestamp::Unix { seconds, nanos })) matches Ok(time) && {
            &&& seconds <= i64::MAX ==> time == seconds
            &&& seconds > i64::MAX ==> time < 0 && time + 0x1_0000_0000_0000_0000 == seconds
        },
{
}

/// By how much a time is past its second is taken from the same time as the second: that of
/// the creation for the creation, where it is known, and likewise for the modification.
pub proof fn law_fine_times_are_of_the_same_times(
    created_seconds: u64,
    created_nanos: u32,
    modified_seconds: u64,
    modified_nanos: u32,
)
    ensures
        ({
            let created = Some(
                Timestamp::Unix { seconds: created_seconds, nanos: created_nanos },
            );
            let modified = Some(
                Timestamp::Unix { seconds: modified_seconds, nanos: modified_nanos },
            );
            &&& nanos_of(either_time(created, modified)) == created_nanos
            &&& nanos_of(either_time(modified, created)) == modified_nanos
            &&& nanos_of(either_time(None, modified)) == modified_nanos
            &&& nanos_of(either_time(created, None)) == created_nanos
            &&& nanos_of(either_time(None, None)) == 0
        }),
{
}

} // verus!
