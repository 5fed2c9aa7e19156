//! The reports: tables of files as CSV, and the summary.
use vstd::prelude::*;
use vstd::string::*;

use crate::model::{
    records, FailedDeletionRecord, FileInfo, FileRecord, OperationMode, RunSummary,
};
use crate::number::{
    count_text, decimal, decimal_text, digit_worth, digits, digits_worth, lemma_decimal_reads_back,
    lemma_digits_worth, number_worth, parse_signed, parse_unsigned, signed_text,
};
use crate::text::{begins_with, chars_of, has_prefix, text_eq, text_of, texts};

verus! {

// ---------------------------------------------------------------------------
// CSV
// ---------------------------------------------------------------------------

/// A table: rows of fields, each a text.
pub type Table = Seq<Seq<Seq<char>>>;

/// The contents of a table.
pub open spec fn table_of(rows: Seq<Vec<String>>) -> Table {
    Seq::new(rows.len(), |i: int| texts(rows[i]@))
}

/// Whether a table has a row, and all its rows are of one length, which is not zero.
pub open spec fn is_rectangular(table: Table) -> bool {
    &&& table.len() > 0
    &&& table[0].len() > 0
    &&& forall|i: int| 0 <= i < table.len() ==> (#[trigger] table[i]).len() == table[0].len()
}

/// The errors of the `csv` crate.
#[verifier::external_type_specification]
#[verifier::external_body]
pub struct ExCsvError(csv::Error);

/// The CSV text of a table.
pub uninterp spec fn csv_bytes(table: Table) -> Seq<u8>;

/// What a CSV text holds: its first record, as the header, where that is valid UTF-8, and
/// the further records. `None` where a record is malformed.
pub uninterp spec fn csv_table(data: Seq<u8>) -> Option<(Option<Seq<Seq<char>>>, Table)>;

/// Writes the rows with `csv::Writer::write_record`, in the crate's default dialect. A
/// field is quoted where it holds a quote, a comma or a line break, so that the crate's
/// reader gives the rows back; the reader drops a byte order mark at the start.
#[verifier::external_body]
fn write_csv(rows: &Vec<Vec<String>>) -> (r: Vec<u8>)
    requires
        is_rectangular(table_of(rows@)),
    ensures
        r@ == csv_bytes(table_of(rows@)),
        table_of(rows@)[0][0].len() == 0 || table_of(rows@)[0][0][0] != '\u{feff}' ==> csv_table(r@)
            == Some((Some(table_of(rows@)[0]), table_of(rows@).drop_first())),
{
    let mut writer = csv::WriterBuilder::new().has_headers(false).from_writer(Vec::new());
    for row in rows {
        writer.write_record(row).expect("rows of one length");
    }
    writer.into_inner().expect("writing to memory")
}

/// Reads a CSV text with `csv::Reader`, in the crate's default dialect: the header and the
/// records, every field as text. It fails where `csv::Reader` does, on records of unequal
/// lengths or fields that are no valid UTF-8.
#[verifier::external_body]
fn read_csv(data: &[u8]) -> (r: Result<(Option<Vec<String>>, Vec<Vec<String>>), csv::Error>)
    ensures
        match r {
            Ok((Some(header), rows)) => csv_table(data@) == Some(
                (Some(texts(header@)), table_of(rows@)),
            ),
            Ok((None, rows)) => csv_table(data@) == Some(
                (None::<Seq<Seq<char>>>, table_of(rows@)),
            ),
            Err(_) => csv_table(data@) is None,
        },
{
    let mut reader = csv::Reader::from_reader(data);
    let header = reader.headers().ok().map(|h| h.iter().map(|f| f.to_string()).collect());
    let mut rows = Vec::new();
    for record in reader.records() {
        rows.push(record?.iter().map(|f| f.to_string()).collect());
    }
    Ok((header, rows))
}

// ---------------------------------------------------------------------------
// Tables of files
// ---------------------------------------------------------------------------

/// The columns of a table of files.
pub open spec fn file_header() -> Seq<Seq<char>> {
    seq![
        "file_path"@,
        "file_size"@,
        "xxhash"@,
        "created_time"@,
        "modified_time"@,
        "file_name"@,
    ]
}

/// The row of a file.
pub open spec fn file_row(file: FileRecord) -> Seq<Seq<char>> {
    seq![
        file.file_path,
        decimal(file.file_size as int),
        file.xxhash,
        decimal(file.created_time as int),
        decimal(file.modified_time as int),
        file.file_name,
    ]
}

/// The rows of a list of files.
pub open spec fn file_rows(files: Seq<FileRecord>) -> Table {
    Seq::new(files.len(), |i: int| file_row(files[i]))
}

/// The table of a list of files: the header and a row for each.
pub open spec fn file_table(files: Seq<FileRecord>) -> Table {
    seq![file_header()] + file_rows(files)
}

/// Whether column `i` is the one column with this name.
pub open spec fn is_only_column(header: Seq<Seq<char>>, name: Seq<char>, i: int) -> bool {
    &&& 0 <= i < header.len()
    &&& header[i] == name
    &&& forall|j: int| 0 <= j < header.len() && #[trigger] header[j] == name ==> j == i
}

/// The field of a row in the column with this name. Without a header, columns go by
/// their place. `None` where there is no such column, or more than one.
pub open spec fn field_of(
    header: Option<Seq<Seq<char>>>,
    row: Seq<Seq<char>>,
    name: Seq<char>,
    place: int,
) -> Option<Seq<char>> {
    match header {
        None => if place < row.len() {
            Some(row[place])
        } else {
            None
        },
        Some(header) => if exists|i: int| is_only_column(header, name, i) {
            let i = choose|i: int| is_only_column(header, name, i);
            if i < row.len() {
                Some(row[i])
            } else {
                None
            }
        } else {
            None
        },
    }
}

/// The number that a field spells: in hexadecimal after `0x`, in decimal otherwise.
pub open spec fn field_worth(field: Seq<char>, signed: bool) -> Option<int> {
    if begins_with(field, "0x"@) {
        number_worth(field.skip(2), 16, signed)
    } else {
        number_worth(field, 10, signed)
    }
}

/// The 64-bit number that a field spells.
pub open spec fn size_field(field: Seq<char>) -> Option<u64> {
    match field_worth(field, false) {
        Some(n) => if n <= u64::MAX {
            Some(n as u64)
        } else {
            None
        },
        None => None,
    }
}

/// The signed 64-bit number that a field spells.
pub open spec fn time_field(field: Seq<char>) -> Option<i64> {
    match field_worth(field, true) {
        Some(n) => if i64::MIN <= n <= i64::MAX {
            Some(n as i64)
        } else {
            None
        },
        None => None,
    }
}

/// The file that a row of a table describes.
pub open spec fn row_file(
    header: Option<Seq<Seq<char>>>,
    row: Seq<Seq<char>>,
) -> Option<FileRecord> {
    match (
        field_of(header, row, "file_path"@, 0),
        field_of(header, row, "file_size"@, 1),
        field_of(header, row, "xxhash"@, 2),
        field_of(header, row, "created_time"@, 3),
        field_of(header, row, "modified_time"@, 4),
        field_of(header, row, "file_name"@, 5),
    ) {
        (Some(path), Some(size), Some(hash), Some(created), Some(modified), Some(name)) => match (
            size_field(size),
            time_field(created),
            time_field(modified),
        ) {
            (Some(file_size), Some(created_time), Some(modified_time)) => Some(
                FileRecord {
                    file_path: path,
                    file_size,
                    xxhash: hash,
                    created_time,
                    modified_time,
                    file_name: name,
                },
            ),
            _ => None,
        },
        _ => None,
    }
}

/// The files that a table describes; the number of the first row that describes none,
/// where there is one.
pub open spec fn table_files(
    header: Option<Seq<Seq<char>>>,
    rows: Table,
) -> Result<Seq<FileRecord>, nat>
    decreases rows.len(),
{
    if rows.len() == 0 {
        Ok(Seq::empty())
    } else {
        match table_files(header, rows.drop_last()) {
            Err(i) => Err(i),
            Ok(files) => match row_file(header, rows.last()) {
                Some(file) => Ok(files.push(file)),
                None => Err((rows.len() - 1) as nat),
            },
        }
    }
}

/// The files that a CSV text describes; `None` where it is malformed.
pub open spec fn saved_files(data: Seq<u8>) -> Option<Seq<FileRecord>> {
    match csv_table(data) {
        Some((header, rows)) => match table_files(header, rows) {
            Ok(files) => Some(files),
            Err(_) => None,
        },
        None => None,
    }
}

proof fn lemma_field_reads_back(n: int, signed: bool)
    requires
        signed || n >= 0,
    ensures
        field_worth(decimal(n), signed) == Some(n),
{
    lemma_decimal_reads_back(n);
    reveal_strlit("0x");
    if begins_with(decimal(n), "0x"@) {
        let s = decimal(n);
        assert(s.subrange(0, 2)[0] == '0');
        assert(s.subrange(0, 2)[1] == 'x');
        assert(s[0] == '0');
        assert(s[1] == 'x');
        if n >= 0 {
            lemma_digits_worth(n as nat, 10);
            assert(digit_worth(digits(n as nat, 10)[1]) < 10);
        }
    }
}

proof fn lemma_header_names()
    ensures
        forall|i: int, j: int|
            0 <= i < j < 6 ==> #[trigger] file_header()[i] != #[trigger] file_header()[j],
{
    reveal_strlit("file_path");
    reveal_strlit("file_size");
    reveal_strlit("xxhash");
    reveal_strlit("created_time");
    reveal_strlit("modified_time");
    reveal_strlit("file_name");
    assert("file_path"@[5] != "file_size"@[5]);
    assert("file_path"@[5] != "file_name"@[5]);
    assert("file_size"@[5] != "file_name"@[5]);
    assert("file_path"@.len() == 9 && "file_size"@.len() == 9 && "file_name"@.len() == 9);
    assert("xxhash"@.len() == 6 && "created_time"@.len() == 12 && "modified_time"@.len() == 13);
}

proof fn lemma_named_field(row: Seq<Seq<char>>, name: Seq<char>, i: int)
    requires
        0 <= i < 6,
        row.len() == 6,
        file_header()[i] == name,
    ensures
        field_of(Some(file_header()), row, name, i) == Some(row[i]),
{
    lemma_header_names();
    assert(is_only_column(file_header(), name, i)) by {
        assert forall|j: int| 0 <= j < file_header().len() && #[trigger] file_header()[j]
            == name implies j == i by {
            if j < i {
                assert(file_header()[j] != file_header()[i]);
            } else if i < j {
                assert(file_header()[i] != file_header()[j]);
            }
        }
    }
    lemma_only_column_field(file_header(), row, name, i, i);
}

proof fn lemma_only_column_field(
    header: Seq<Seq<char>>,
    row: Seq<Seq<char>>,
    name: Seq<char>,
    i: int,
    place: int,
)
    requires
        is_only_column(header, name, i),
        i < row.len(),
    ensures
        field_of(Some(header), row, name, place) == Some(row[i]),
{
    let c = choose|c: int| is_only_column(header, name, c);
    assert(is_only_column(header, name, c));
    assert(header[i] == name);
    assert(c == i);
}

/// A row that a file was written as describes that file.
pub proof fn lemma_row_reads_back(file: FileRecord)
    ensures
        row_file(Some(file_header()), file_row(file)) == Some(file),
{
    let row = file_row(file);
    lemma_named_field(row, "file_path"@, 0);
    lemma_named_field(row, "file_size"@, 1);
    lemma_named_field(row, "xxhash"@, 2);
    lemma_named_field(row, "created_time"@, 3);
    lemma_named_field(row, "modified_time"@, 4);
    lemma_named_field(row, "file_name"@, 5);
    lemma_field_reads_back(file.file_size as int, false);
    lemma_field_reads_back(file.created_time as int, true);
    lemma_field_reads_back(file.modified_time as int, true);
}

/// A table of files describes those files, all fields included.
pub proof fn law_table_reads_back(files: Seq<FileRecord>)
    ensures
        table_files(Some(file_header()), file_rows(files)) == Ok::<Seq<FileRecord>, nat>(files),
    decreases files.len(),
{
    let rows = file_rows(files);
    if files.len() == 0 {
        assert(files =~= Seq::empty());
    } else {
        law_table_reads_back(files.drop_last());
        assert(rows.drop_last() =~= file_rows(files.drop_last()));
        lemma_row_reads_back(files.last());
        assert(files.drop_last().push(files.last()) =~= files);
    }
}

// ---------------------------------------------------------------------------
// Writing
// ---------------------------------------------------------------------------

fn header_row() -> (r: Vec<String>)
    ensures
        texts(r@) == file_header(),
{
    let mut r: Vec<String> = Vec::new();
    r.push("file_path".to_string());
    r.push("file_size".to_string());
    r.push("xxhash".to_string());
    r.push("created_time".to_string());
    r.push("modified_time".to_string());
    r.push("file_name".to_string());
    assert(texts(r@) =~= file_header());
    r
}

fn row_of(file: &FileInfo) -> (r: Vec<String>)
    ensures
        texts(r@) == file_row(file@),
{
    let mut r: Vec<String> = Vec::new();
    r.push(file.file_path.clone());
    r.push(decimal_text(file.file_size));
    r.push(file.xxhash.clone());
    r.push(signed_text(file.created_time));
    r.push(signed_text(file.modified_time));
    r.push(file.file_name.clone());
    assert(texts(r@) =~= file_row(file@));
    r
}

/// The CSV text of a list of files. Read back, it describes the same files.
pub fn encode_files(files: &Vec<FileInfo>) -> (r: Vec<u8>)
    ensures
        r@ == csv_bytes(file_table(records(files@))),
        saved_files(r@) == Some(records(files@)),
{
    let mut rows: Vec<Vec<String>> = Vec::new();
    rows.push(header_row());
    let mut i: usize = 0;
    proof {
        assert(table_of(rows@) =~= file_table(records(files@).take(0)));
    }
    while i < files.len()
        invariant
            i <= files@.len(),
            table_of(rows@) == file_table(records(files@).take(i as int)),
        decreases files@.len() - i,
    {
        let ghost before = rows@;
        let row = row_of(&files[i]);
        rows.push(row);
        proof {
            assert(table_of(rows@) =~= table_of(before).push(texts(row@)));
            assert(records(files@).take(i + 1) =~= records(files@).take(i as int).push(
                files@[i as int]@,
            ));
            assert(file_table(records(files@).take(i + 1)) =~= file_table(
                records(files@).take(i as int),
            ).push(file_row(files@[i as int]@)));
        }
        i = i + 1;
    }
    proof {
        let table = file_table(records(files@));
        assert(records(files@).take(i as int) =~= records(files@));
        assert(table[0] == file_header());
        assert(table.drop_first() =~= file_rows(records(files@)));
        assert(is_rectangular(table));
        reveal_strlit("file_path");
        law_table_reads_back(records(files@));
    }
    write_csv(&rows)
}

/// The row of a failed deletion.
pub open spec fn failure_row(record: FailedDeletionRecord) -> Seq<Seq<char>> {
    seq![record.file_path@, record.error@]
}

/// The table of a list of failed deletions.
pub open spec fn failure_table(failed: Seq<FailedDeletionRecord>) -> Table {
    seq![seq!["file_path"@, "error"@]] + Seq::new(failed.len(), |i: int| failure_row(failed[i]))
}

/// The CSV text of a list of failed deletions.
pub fn encode_failures(failed: &Vec<FailedDeletionRecord>) -> (r: Vec<u8>)
    ensures
        r@ == csv_bytes(failure_table(failed@)),
        csv_table(r@) == Some(
            (Some(failure_table(failed@)[0]), failure_table(failed@).drop_first()),
        ),
{
    let mut rows: Vec<Vec<String>> = Vec::new();
    let mut header: Vec<String> = Vec::new();
    header.push("file_path".to_string());
    header.push("error".to_string());
    proof {
        assert(texts(header@) =~= seq!["file_path"@, "error"@]);
    }
    rows.push(header);
    let mut i: usize = 0;
    proof {
        assert(table_of(rows@) =~= failure_table(failed@.take(0)));
    }
    while i < failed.len()
        invariant
            i <= failed@.len(),
            table_of(rows@) == failure_table(failed@.take(i as int)),
        decreases failed@.len() - i,
    {
        let ghost before = rows@;
        let mut row: Vec<String> = Vec::new();
        row.push(failed[i].file_path.clone());
        row.push(failed[i].error.clone());
        proof {
            assert(texts(row@) =~= failure_row(failed@[i as int]));
        }
        rows.push(row);
        proof {
            assert(table_of(rows@) =~= table_of(before).push(texts(row@)));
            assert(failure_table(failed@.take(i + 1)) =~= failure_table(
                failed@.take(i as int),
            ).push(failure_row(failed@[i as int])));
        }
        i = i + 1;
    }
    proof {
        assert(failed@.take(i as int) =~= failed@);
        assert(is_rectangular(failure_table(failed@)));
        reveal_strlit("file_path");
    }
    write_csv(&rows)
}

// ---------------------------------------------------------------------------
// Reading
// ---------------------------------------------------------------------------

/// Why a saved table cannot be used.
pub enum TableError {
    /// The text is no CSV table.
    Csv(csv::Error),
    /// The row with this number, counted from zero after the header, describes no file.
    Row(usize),
}

fn find_column(header: &Vec<String>, name: &str) -> (r: Option<usize>)
    ensures
        match r {
            Some(i) => is_only_column(texts(header@), name@, i as int),
            None => !exists|i: int| is_only_column(texts(header@), name@, i),
        },
{
    let ghost h = texts(header@);
    let mut found: Option<usize> = None;
    let mut i: usize = 0;
    while i < header.len()
        invariant
            i <= header@.len(),
            h == texts(header@),
            match found {
                Some(k) => k < i && h[k as int] == name@ && forall|j: int|
                    0 <= j < i && #[trigger] h[j] == name@ ==> j == k,
                None => forall|j: int| 0 <= j < i ==> #[trigger] h[j] != name@,
            },
        decreases header@.len() - i,
    {
        proof {
            assert(h[i as int] == header@[i as int]@);
        }
        if text_eq(header[i].as_str(), name) {
            if let Some(k) = found {
                proof {
                    assert forall|m: int| !is_only_column(h, name@, m) by {
                        if is_only_column(h, name@, m) {
                            assert(h[k as int] == name@);
                            assert(h[i as int] == name@);
                        }
                    }
                }
                return None;
            }
            found = Some(i);
        }
        i = i + 1;
    }
    found
}

fn get_field(
    header: &Option<Vec<String>>,
    row: &Vec<String>,
    name: &str,
    place: usize,
) -> (r: Option<String>)
    ensures
        match r {
            Some(s) => Some(s@),
            None => None,
        } == field_of(
            match header {
                Some(h) => Some(texts(h@)),
                None => None,
            },
            texts(row@),
            name@,
            place as int,
        ),
{
    let column: Option<usize> = match header {
        Some(h) => find_column(h, name),
        None => Some(place),
    };
    match column {
        Some(i) => {
            proof {
                match header {
                    Some(h) => {
                        let names = texts(h@);
                        let c = choose|c: int| is_only_column(names, name@, c);
                        assert(is_only_column(names, name@, i as int));
                        assert(is_only_column(names, name@, c));
                        assert(names[i as int] == name@);
                        assert(c == i);
                    },
                    None => {},
                }
                assert(i < row@.len() ==> texts(row@)[i as int] == row@[i as int]@);
            }
            if i < row.len() {
                Some(row[i].clone())
            } else {
                None
            }
        },
        None => None,
    }
}

fn size_of_field(field: &str) -> (r: Option<u64>)
    ensures
        r == size_field(field@),
{
    proof {
        reveal_strlit("0x");
    }
    if has_prefix(field, "0x") {
        let cs = chars_of(field);
        proof {
            assert(field@.skip(2) =~= field@.subrange(2, field@.len() as int));
        }
        let rest = text_of(&cs, 2, cs.len());
        parse_unsigned(rest.as_str(), 16)
    } else {
        parse_unsigned(field, 10)
    }
}

fn time_of_field(field: &str) -> (r: Option<i64>)
    ensures
        r == time_field(field@),
{
    proof {
        reveal_strlit("0x");
    }
    if has_prefix(field, "0x") {
        let cs = chars_of(field);
        proof {
            assert(field@.skip(2) =~= field@.subrange(2, field@.len() as int));
        }
        let rest = text_of(&cs, 2, cs.len());
        parse_signed(rest.as_str(), 16)
    } else {
        parse_signed(field, 10)
    }
}

fn file_of_row(header: &Option<Vec<String>>, row: &Vec<String>) -> (r: Option<FileInfo>)
    ensures
        match r {
            Some(file) => Some(file@),
            None => None,
        } == row_file(
            match header {
                Some(h) => Some(texts(h@)),
                None => None,
            },
            texts(row@),
        ),
{
    let path = get_field(header, row, "file_path", 0);
    let size = get_field(header, row, "file_size", 1);
    let hash = get_field(header, row, "xxhash", 2);
    let created = get_field(header, row, "created_time", 3);
    let modified = get_field(header, row, "modified_time", 4);
    let name = get_field(header, row, "file_name", 5);
    match (path, size, hash, created, modified, name) {
        (Some(path), Some(size), Some(hash), Some(created), Some(modified), Some(name)) => {
            match (
                size_of_field(size.as_str()),
                time_of_field(created.as_str()),
                time_of_field(modified.as_str()),
            ) {
                (Some(file_size), Some(created_time), Some(modified_time)) => Some(
                    FileInfo {
                        file_path: path,
                        file_size,
                        xxhash: hash,
                        created_time,
                        modified_time,
                        file_name: name,
                    },
                ),
                _ => None,
            }
        },
        _ => None,
    }
}

/// What a table from a CSV text says: its files, or what is wrong with it.
pub fn files_of_table(header: &Option<Vec<String>>, rows: &Vec<Vec<String>>) -> (r: Result<
    Vec<FileInfo>,
    usize,
>)
    ensures
        match r {
            Ok(files) => Ok(records(files@)),
            Err(i) => Err(i as nat),
        } == table_files(
            match header {
                Some(h) => Some(texts(h@)),
                None => None,
            },
            table_of(rows@),
        ),
{
    let ghost h = match header {
        Some(h) => Some(texts(h@)),
        None => None,
    };
    let ghost table = table_of(rows@);
    let mut files: Vec<FileInfo> = Vec::new();
    let mut i: usize = 0;
    proof {
        assert(table.take(0) =~= Seq::empty());
        assert(records(files@) =~= Seq::empty());
    }
    while i < rows.len()
        invariant
            i <= rows@.len(),
            table == table_of(rows@),
            h == (match header {
                Some(h) => Some(texts(h@)),
                None => None,
            }),
            table_files(h, table.take(i as int)) == Ok::<Seq<FileRecord>, nat>(records(files@)),
        decreases rows@.len() - i,
    {
        let ghost before = files@;
        let file = file_of_row(header, &rows[i]);
        proof {
            assert(table.take(i + 1).drop_last() =~= table.take(i as int));
            assert(table.take(i + 1).last() == texts(rows@[i as int]@));
        }
        match file {
            Some(file) => {
                files.push(file);
                proof {
                    assert(records(files@) =~= records(before).push(file@));
                }
            },
            None => {
                proof {
                    lemma_first_bad_row(h, table, i + 1);
                }
                return Err(i);
            },
        }
        i = i + 1;
    }
    proof {
        assert(table.take(i as int) =~= table);
    }
    Ok(files)
}

proof fn lemma_first_bad_row(header: Option<Seq<Seq<char>>>, table: Table, k: int)
    requires
        0 <= k <= table.len(),
        table_files(header, table.take(k)) is Err,
    ensures
        table_files(header, table) == table_files(header, table.take(k)),
    decreases table.len() - k,
{
    if k == table.len() {
        assert(table.take(k) =~= table);
    } else {
        assert(table.take(k + 1).drop_last() =~= table.take(k));
        lemma_first_bad_row(header, table, k + 1);
    }
}

/// Whether `e` says why `data` is no table of files.
pub open spec fn is_table_error(data: Seq<u8>, e: TableError) -> bool {
    match e {
        TableError::Csv(_) => csv_table(data) is None,
        TableError::Row(i) => csv_table(data) matches Some((header, rows)) && table_files(
            header,
            rows,
        ) == Err::<Seq<FileRecord>, nat>(i as nat),
    }
}

/// The files that a CSV text describes.
pub fn decode_files(data: &[u8]) -> (r: Result<Vec<FileInfo>, TableError>)
    ensures
        match r {
            Ok(files) => saved_files(data@) == Some(records(files@)),
            Err(e) => is_table_error(data@, e),
        },
{
    match read_csv(data) {
        Ok((header, rows)) => match files_of_table(&header, &rows) {
            Ok(files) => Ok(files),
            Err(i) => Err(TableError::Row(i)),
        },
        Err(e) => Err(TableError::Csv(e)),
    }
}

// ---------------------------------------------------------------------------
// Summary
// ---------------------------------------------------------------------------

/// The summary of a run as text.
pub open spec fn summary_lines(s: RunSummary) -> Seq<char> {
    "mode: "@ + s.mode.name() + "\nroot_dir: "@ + s.root_dir@ + "\noutput_dir: "@ + s.output_dir@
        + "\nkeep_rule: "@ + s.keep_rule@ + "\ndiscovered_files: "@ + decimal(
        s.discovered_files as int,
    ) + "\nscanned_files: "@ + decimal(s.scanned_files as int) + "\nkept_files: "@ + decimal(
        s.kept_files as int,
    ) + "\nplanned_deletions: "@ + decimal(s.planned_deletions as int) + "\ndeleted_files: "@
        + decimal(s.deleted_files as int) + "\nfailed_deletions: "@ + decimal(
        s.failed_deletions as int,
    ) + "\nduplicate_sets: "@ + decimal(s.duplicate_sets as int) + "\n"@
}

/// The summary of a run as text.
pub fn summary_text(s: &RunSummary) -> (r: String)
    ensures
        r@ == summary_lines(*s),
{
    let mut t: String = "mode: ".to_string();
    t.append(s.mode.as_str());
    t.append("\nroot_dir: ");
    t.append(s.root_dir.as_str());
    t.append("\noutput_dir: ");
    t.append(s.output_dir.as_str());
    t.append("\nkeep_rule: ");
    t.append(s.keep_rule.as_str());
    t.append("\ndiscovered_files: ");
    t.append(count_text(s.discovered_files).as_str());
    t.append("\nscanned_files: ");
    t.append(count_text(s.scanned_files).as_str());
    t.append("\nkept_files: ");
    t.append(count_text(s.kept_files).as_str());
    t.append("\nplanned_deletions: ");
    t.append(count_text(s.planned_deletions).as_str());
    t.append("\ndeleted_files: ");
    t.append(count_text(s.deleted_files).as_str());
    t.append("\nfailed_deletions: ");
    t.append(count_text(s.failed_deletions).as_str());
    t.append("\nduplicate_sets: ");
    t.append(count_text(s.duplicate_sets).as_str());
    t.append("\n");
    t
}

// ---------------------------------------------------------------------------
// Laws of the reports
// ---------------------------------------------------------------------------

/// Each column of a table of files holds what its name says.
pub proof fn law_columns_hold_what_they_say(file: FileRecord, i: int)
    requires
        0 <= i < file_header().len(),
    ensures
        file_header().len() == 6,
        file_row(file).len() == 6,
        file_header()[i] == "file_path"@ ==> file_row(file)[i] == file.file_path,
        file_header()[i] == "file_size"@ ==> file_row(file)[i] == decimal(file.file_size as int),
        file_header()[i] == "xxhash"@ ==> file_row(file)[i] == file.xxhash,
        file_header()[i] == "created_time"@ ==> file_row(file)[i] == decimal(
            file.created_time as int,
        ),
        file_header()[i] == "modified_time"@ ==> file_row(file)[i] == decimal(
            file.modified_time as int,
        ),
        file_header()[i] == "file_name"@ ==> file_row(file)[i] == file.file_name,
        file_header()[0] == "file_path"@,
        file_header()[1] == "file_size"@,
        file_header()[2] == "xxhash"@,
        file_header()[3] == "created_time"@,
        file_header()[4] == "modified_time"@,
        file_header()[5] == "file_name"@,
{
    lemma_header_names();
}

/// A table of files has the header, and then a row for each file, in their order.
pub proof fn law_table_has_a_row_for_each_file(files: Seq<FileRecord>, i: int)
    requires
        0 <= i < files.len(),
    ensures
        file_table(files).len() == files.len() + 1,
        file_table(files)[0] == file_header(),
        file_table(files)[i + 1] == file_row(files[i]),
{
}

/// Columns are read by their names, wherever they stand: each field of the file is what
/// stands in the one column with its name.
pub proof fn law_columns_are_read_by_name(
    header: Seq<Seq<char>>,
    row: Seq<Seq<char>>,
    path: int,
    size: int,
    hash: int,
    created: int,
    modified: int,
    name: int,
)
    requires
        row.len() >= header.len(),
        is_only_column(header, "file_path"@, path),
        is_only_column(header, "file_size"@, size),
        is_only_column(header, "xxhash"@, hash),
        is_only_column(header, "created_time"@, created),
        is_only_column(header, "modified_time"@, modified),
        is_only_column(header, "file_name"@, name),
    ensures
        ({
            let read = row_file(Some(header), row);
            &&& read is Some <==> size_field(row[size]) is Some && time_field(row[created]) is Some
                && time_field(row[modified]) is Some
            &&& read matches Some(file) ==> {
                &&& file.file_path == row[path]
                &&& Some(file.file_size) == size_field(row[size])
                &&& file.xxhash == row[hash]
                &&& Some(file.created_time) == time_field(row[created])
                &&& Some(file.modified_time) == time_field(row[modified])
                &&& file.file_name == row[name]
            }
        }),
{
    lemma_only_column_field(header, row, "file_path"@, path, 0);
    lemma_only_column_field(header, row, "file_size"@, size, 1);
    lemma_only_column_field(header, row, "xxhash"@, hash, 2);
    lemma_only_column_field(header, row, "created_time"@, created, 3);
    lemma_only_column_field(header, row, "modified_time"@, modified, 4);
    lemma_only_column_field(header, row, "file_name"@, name, 5);
}

/// Sizes and times are read as they are written, over their whole range.
pub proof fn law_numbers_in_tables_read_back(size: u64, time: i64)
    ensures
        size_field(decimal(size as int)) == Some(size),
        time_field(decimal(time as int)) == Some(time),
{
    lemma_field_reads_back(size as int, false);
    lemma_field_reads_back(time as int, true);
}

/// The table of failed deletions has, for each of them in their order, the path of the file
/// and then the error.
pub proof fn law_failures_are_told_with_path_and_error(
    failed: Seq<FailedDeletionRecord>,
    i: int,
)
    requires
        0 <= i < failed.len(),
    ensures
        failure_table(failed).len() == failed.len() + 1,
        failure_table(failed)[0] == seq!["file_path"@, "error"@],
        failure_table(failed)[i + 1] == seq![failed[i].file_path@, failed[i].error@],
{
}

/// A line of the summary: a name and its value.
pub open spec fn summary_line(name: Seq<char>, value: Seq<char>) -> Seq<char> {
    name + ": "@ + value + "\n"@
}

proof fn lemma_next_line(told: Seq<char>, name: Seq<char>, start: Seq<char>, value: Seq<char>)
    requires
        start == "\n"@ + name + ": "@,
    ensures
        (told + "\n"@) + summary_line(name, value) == told + start + value + "\n"@,
{
    assert((told + "\n"@) + summary_line(name, value) =~= told + start + value + "\n"@);
}

/// The summary has a line for each thing that it tells: the name, and the value that the run
/// came to under that name.
pub proof fn law_summary_tells_each_value_under_its_name(s: RunSummary)
    ensures
        summary_lines(s) == summary_line(
            "mode"@,
            if s.mode == OperationMode::Apply {
                "apply"@
            } else {
                "dry-run"@
            },
        ) + summary_line("root_dir"@, s.root_dir@) + summary_line("output_dir"@, s.output_dir@)
            + summary_line("keep_rule"@, s.keep_rule@) + summary_line(
            "discovered_files"@,
            decimal(s.discovered_files as int),
        ) + summary_line("scanned_files"@, decimal(s.scanned_files as int)) + summary_line(
            "kept_files"@,
            decimal(s.kept_files as int),
        ) + summary_line("planned_deletions"@, decimal(s.planned_deletions as int)) + summary_line(
            "deleted_files"@,
            decimal(s.deleted_files as int),
        ) + summary_line("failed_deletions"@, decimal(s.failed_deletions as int)) + summary_line(
            "duplicate_sets"@,
            decimal(s.duplicate_sets as int),
        ),
{
    reveal_strlit(": ");
    reveal_strlit("\n");
    reveal_strlit("mode");
    reveal_strlit("mode: ");
    reveal_strlit("root_dir");
    reveal_strlit("\nroot_dir: ");
    reveal_strlit("output_dir");
    reveal_strlit("\noutput_dir: ");
    reveal_strlit("keep_rule");
    reveal_strlit("\nkeep_rule: ");
    reveal_strlit("discovered_files");
    reveal_strlit("\ndiscovered_files: ");
    reveal_strlit("scanned_files");
    reveal_strlit("\nscanned_files: ");
    reveal_strlit("kept_files");
    reveal_strlit("\nkept_files: ");
    reveal_strlit("planned_deletions");
    reveal_strlit("\nplanned_deletions: ");
    reveal_strlit("deleted_files");
    reveal_strlit("\ndeleted_files: ");
    reveal_strlit("failed_deletions");
    reveal_strlit("\nfailed_deletions: ");
    reveal_strlit("duplicate_sets");
    reveal_strlit("\nduplicate_sets: ");
    assert("mode: "@ =~= "mode"@ + ": "@);
    assert("\nroot_dir: "@ =~= "\n"@ + "root_dir"@ + ": "@);
    assert("\noutput_dir: "@ =~= "\n"@ + "output_dir"@ + ": "@);
    assert("\nkeep_rule: "@ =~= "\n"@ + "keep_rule"@ + ": "@);
    assert("\ndiscovered_files: "@ =~= "\n"@ + "discovered_files"@ + ": "@);
    assert("\nscanned_files: "@ =~= "\n"@ + "scanned_files"@ + ": "@);
    assert("\nkept_files: "@ =~= "\n"@ + "kept_files"@ + ": "@);
    assert("\nplanned_deletions: "@ =~= "\n"@ + "planned_deletions"@ + ": "@);
    assert("\ndeleted_files: "@ =~= "\n"@ + "deleted_files"@ + ": "@);
    assert("\nfailed_deletions: "@ =~= "\n"@ + "failed_deletions"@ + ": "@);
    assert("\nduplicate_sets: "@ =~= "\n"@ + "duplicate_sets"@ + ": "@);
    let mode = "mode: "@ + s.mode.name();
    assert(summary_line("mode"@, s.mode.name()) =~= mode + "\n"@);
    let to_root_dir = mode + "\nroot_dir: "@ + s.root_dir@;
    lemma_next_line(mode, "root_dir"@, "\nroot_dir: "@, s.root_dir@);
    let to_output_dir = to_root_dir + "\noutput_dir: "@ + s.output_dir@;
    lemma_next_line(to_root_dir, "output_dir"@, "\noutput_dir: "@, s.output_dir@);
    let to_keep_rule = to_output_dir + "\nkeep_rule: "@ + s.keep_rule@;
    lemma_next_line(to_output_dir, "keep_rule"@, "\nkeep_rule: "@, s.keep_rule@);
    let to_discovered_files = to_keep_rule + "\ndiscovered_files: "@ + decimal(
        s.discovered_files as int,
    );
    lemma_next_line(
        to_keep_rule,
        "discovered_files"@,
        "\ndiscovered_files: "@,
        decimal(s.discovered_files as int),
    );
    let to_scanned_files = to_discovered_files + "\nscanned_files: "@ + decimal(
        s.scanned_files as int,
    );
    lemma_next_line(
        to_discovered_files,
        "scanned_files"@,
        "\nscanned_files: "@,
        decimal(s.scanned_files as int),
    );
    let to_kept_files = to_scanned_files + "\nkept_files: "@ + decimal(s.kept_files as int);
    lemma_next_line(
        to_scanned_files,
        "kept_files"@,
        "\nkept_files: "@,
        decimal(s.kept_files as int),
    );
    let to_planned_deletions = to_kept_files + "\nplanned_deletions: "@ + decimal(
        s.planned_deletions as int,
    );
    lemma_next_line(
        to_kept_files,
        "planned_deletions"@,
        "\nplanned_deletions: "@,
        decimal(s.planned_deletions as int),
    );
    let to_deleted_files = to_planned_deletions + "\ndeleted_files: "@ + decimal(
        s.deleted_files as int,
    );
    lemma_next_line(
        to_planned_deletions,
        "deleted_files"@,
        "\ndeleted_files: "@,
        decimal(s.deleted_files as int),
    );
    let to_failed_deletions = to_deleted_files + "\nfailed_deletions: "@ + decimal(
        s.failed_deletions as int,
    );
    lemma_next_line(
        to_deleted_files,
        "failed_deletions"@,
        "\nfailed_deletions: "@,
        decimal(s.failed_deletions as int),
    );
    let to_duplicate_sets = to_failed_deletions + "\nduplicate_sets: "@ + decimal(
        s.duplicate_sets as int,
    );
    lemma_next_line(
        to_failed_deletions,
        "duplicate_sets"@,
        "\nduplicate_sets: "@,
        decimal(s.duplicate_sets as int),
    );
}

/// Rows are read one after the other: each gives its file, in their order, and the first
/// that gives none is the fault of the table.
pub proof fn law_rows_are_read_in_turn(
    header: Option<Seq<Seq<char>>>,
    rows: Table,
    row: Seq<Seq<char>>,
)
    ensures
        table_files(header, Seq::empty()) == Ok::<Seq<FileRecord>, nat>(Seq::empty()),
        table_files(header, rows.push(row)) == match table_files(header, rows) {
            Ok(files) => match row_file(header, row) {
                Some(file) => Ok(files.push(file)),
                None => Err(rows.len()),
            },
            Err(i) => Err(i),
        },
{
    assert(rows.push(row).drop_last() =~= rows);
}

/// Without a header, columns are read by their places: the path, the size, the hash, the two
/// times and the name.
pub proof fn law_columns_without_names_are_read_by_place(row: Seq<Seq<char>>)
    ensures
        row.len() < 6 ==> row_file(None, row) is None,
        row_file(None, row) matches Some(file) ==> {
            &&& file.file_path == row[0]
            &&& Some(file.file_size) == size_field(row[1])
            &&& file.xxhash == row[2]
            &&& Some(file.created_time) == time_field(row[3])
            &&& Some(file.modified_time) == time_field(row[4])
            &&& file.file_name == row[5]
        },
{
}

/// Sizes may be written in hexadecimal, after a zero and an x.
pub proof fn law_hexadecimal_sizes_are_read(size: u64)
    ensures
        size_field("0x"@ + digits(size as nat, 16)) == Some(size),
{
    reveal_strlit("0x");
    let field = "0x"@ + digits(size as nat, 16);
    assert(field.subrange(0, 2) =~= "0x"@);
    assert(field.skip(2) =~= digits(size as nat, 16));
    lemma_digits_worth(size as nat, 16);
}

/// What is saved is read exactly where it is a table, every row of which gives a file.
pub proof fn law_saved_tables_are_read_whole(
    data: Seq<u8>,
    header: Option<Seq<Seq<char>>>,
    rows: Table,
)
    requires
        csv_table(data) == Some((header, rows)),
    ensures
        saved_files(data) is Some <==> table_files(header, rows) is Ok,
        table_files(header, rows) matches Ok(files) ==> saved_files(data) == Some(files),
{
}

/// A column that the header lacks, or names twice, gives no field, and neither does one
/// behind the end of the row.
pub proof fn law_doubtful_columns_give_no_field(
    header: Seq<Seq<char>>,
    row: Seq<Seq<char>>,
    name: Seq<char>,
    place: int,
    i: int,
    j: int,
)
    ensures
        !header.contains(name) ==> field_of(Some(header), row, name, place) is None,
        0 <= i < j < header.len() && header[i] == name && header[j] == name ==> field_of(
            Some(header),
            row,
            name,
            place,
        ) is None,
        is_only_column(header, name, i) && i >= row.len() ==> field_of(
            Some(header),
            row,
            name,
            place,
        ) is None,
{
    if exists|k: int| is_only_column(header, name, k) {
        let k = choose|k: int| is_only_column(header, name, k);
        assert(header[k] == name);
        if 0 <= i < j < header.len() && header[i] == name && header[j] == name {
            assert(i == k && j == k);
        }
    }
}

/// A field that is no hexadecimal number is read as a decimal one, and refused where it is
/// none, or is out of range.
pub proof fn law_fields_are_read_as_decimal_numbers(field: Seq<char>, n: nat)
    ensures
        !begins_with(field, "0x"@) ==> {
            &&& size_field(field) is Some <==> number_worth(field, 10, false) is Some
                && number_worth(field, 10, false)->0 <= u64::MAX
            &&& size_field(field) is Some ==> size_field(field)->0 == number_worth(
                field,
                10,
                false,
            )->0
            &&& time_field(field) is Some <==> number_worth(field, 10, true) is Some && i64::MIN
                <= number_worth(field, 10, true)->0 <= i64::MAX
            &&& time_field(field) is Some ==> time_field(field)->0 == number_worth(
                field,
                10,
                true,
            )->0
        },
        n <= i64::MAX ==> time_field("0x"@ + digits(n, 16)) == Some(n as i64),
{
    reveal_strlit("0x");
    let hex = "0x"@ + digits(n, 16);
    assert(hex.subrange(0, 2) =~= "0x"@);
    assert(hex.skip(2) =~= digits(n, 16));
    lemma_digits_worth(n, 16);
    if !begins_with(field, "0x"@) {
        lemma_unsigned_worth(field);
    }
}

proof fn lemma_unsigned_worth(s: Seq<char>)
    ensures
        number_worth(s, 10, false) matches Some(n) ==> n >= 0,
{
    if number_worth(s, 10, false) is Some {
        let body = if s[0] == '+' {
            s.drop_first()
        } else {
            s
        };
        lemma_worth_is_not_negative(body);
    }
}

proof fn lemma_worth_is_not_negative(s: Seq<char>)
    ensures
        digits_worth(s, 10) >= 0,
    decreases s.len(),
{
    if s.len() > 0 {
        lemma_worth_is_not_negative(s.drop_last());
    }
}

} // verus!
