use vstd::prelude::*;
use crate::decimal::{parse_decimal, parsed_decimal};
use crate::drillhole::same_bytes;
use crate::error::EngineError;
use crate::point::WORLD_LIMIT;

verus! {

/// A delimited text split into records and fields, nothing read into it
/// yet: `rows[r][c]` is the text of the field `c` of the record `r`.
#[derive(Clone, Debug, PartialEq, Eq)]
pub struct Table {
    pub rows: Vec<Vec<Vec<u8>>>,
}

impl View for Table {
    type V = Seq<Seq<Seq<u8>>>;

    open spec fn view(&self) -> Seq<Seq<Seq<u8>>> {
        Seq::new(
            self.rows.len() as nat,
            |r: int| Seq::new(self.rows[r].len() as nat, |c: int| self.rows[r][c]@),
        )
    }
}

/// The fields of one record that a reader asked for: the texts of the
/// text columns and the numbers of the number columns, each in the order
/// in which the columns were named.
#[derive(Clone, Debug, PartialEq, Eq)]
pub struct RawRow {
    pub texts: Vec<Vec<u8>>,
    pub numbers: Vec<i64>,
}

/// An error of the `csv` crate.
#[verifier::external_type_specification]
#[verifier::external_body]
pub struct ExCsvError(csv::Error);

/// The records that the `csv` crate reads from a delimited text: a reader
/// built with this delimiter, without a header row of its own and accepting
/// records of any length, asked for its byte records one after the other.
pub uninterp spec fn csv_records(data: Seq<u8>, delimiter: u8) -> Seq<Seq<Seq<u8>>>;

/// Splits a delimited text into records with `csv::Reader::byte_records`.
/// The reader comes from a `csv::ReaderBuilder` with `has_headers(false)`,
/// `flexible(true)` and the given delimiter, so the first record is handed
/// out like the others. Such a reader has two sources of error, the
/// reading of its input and a record of another length than the first;
/// over a text in memory and with `flexible(true)` neither arises, so the
/// call is claimed to succeed. Of the records nothing is claimed but that
/// the same text and delimiter give the same ones.
#[verifier::external_body]
fn read_records(data: &Vec<u8>, delimiter: u8) -> (r: Result<Table, csv::Error>)
    ensures
        r is Ok,
        r->Ok_0@ == csv_records(data@, delimiter),
{
    let mut reader = csv::ReaderBuilder::new()
        .has_headers(false)
        .flexible(true)
        .delimiter(delimiter)
        .from_reader(data.as_slice());
    let mut rows: Vec<Vec<Vec<u8>>> = Vec::new();
    for record in reader.byte_records() {
        rows.push(record?.iter().map(|field| field.to_vec()).collect());
    }
    Ok(Table { rows })
}

/// The first record from `start` on that has not as many fields as the
/// first record of the table.
pub open spec fn first_uneven(table: Seq<Seq<Seq<u8>>>, start: int) -> Option<int>
    decreases table.len() - start,
{
    if start < 0 || start >= table.len() {
        None
    } else if table[start].len() != table[0].len() {
        Some(start)
    } else {
        first_uneven(table, start + 1)
    }
}

/// What the records of a text are read as. Every record must have as many
/// fields as the first. A record that has not is a fault: of its row,
/// counted like the data rows, and of the column where it ends too early
/// or goes on too long.
pub open spec fn split_outcome(records: Seq<Seq<Seq<u8>>>, has_header: bool) -> Result<
    Seq<Seq<Seq<u8>>>,
    EngineError,
> {
    match first_uneven(records, 1) {
        Some(i) => Err(
            EngineError::FieldParse {
                row: (if has_header {
                    i - 1
                } else {
                    i
                }) as usize,
                column: (if records[i].len() < records[0].len() {
                    records[i].len()
                } else {
                    records[0].len()
                }) as usize,
            },
        ),
        None => Ok(records),
    }
}

/// Splits a delimited text into its records and their fields, and sees
/// that every record has as many fields as the first.
pub fn split_table(data: &Vec<u8>, delimiter: u8, has_header: bool) -> (r: Result<
    Table,
    EngineError,
>)
    ensures
        match split_outcome(csv_records(data@, delimiter), has_header) {
            Err(e) => r == Err::<Table, EngineError>(e),
            Ok(records) => r is Ok && r->Ok_0@ == records,
        },
{
    let table = match read_records(data, delimiter) {
        Ok(table) => table,
        Err(_) => {
            return Err(EngineError::FieldParse { row: 0, column: 0 });
        },
    };
    let mut i: usize = 1;
    while i < table.rows.len()
        invariant
            1 <= i,
            table@ == csv_records(data@, delimiter),
            first_uneven(table@, 1) == first_uneven(table@, i as int),
        decreases table.rows.len() - i,
    {
        let width = table.rows[0].len();
        let len = table.rows[i].len();
        assert(table@[i as int].len() == len && table@[0].len() == width);
        if len != width {
            let row = if has_header { i - 1 } else { i };
            let column = if len < width { len } else { width };
            assert(first_uneven(table@, 1) == Some(i as int));
            return Err(EngineError::FieldParse { row, column });
        }
        i += 1;
    }
    Ok(table)
}

/// The byte with an ASCII capital turned into its small letter.
pub open spec fn lower(b: u8) -> u8 {
    if 65 <= b <= 90 {
        (b + 32) as u8
    } else {
        b
    }
}

/// The text with every ASCII capital turned into its small letter.
pub open spec fn lowercase(s: Seq<u8>) -> Seq<u8> {
    Seq::new(s.len(), |i: int| lower(s[i]))
}

/// The first column from `start` on whose name, capitals turned small, is
/// `name`.
pub open spec fn named_column(header: Seq<Seq<u8>>, name: Seq<u8>, start: int) -> Option<int>
    decreases header.len() - start,
{
    if start < 0 || start >= header.len() {
        None
    } else if lowercase(header[start]) == name {
        Some(start)
    } else {
        named_column(header, name, start + 1)
    }
}

/// The text with every ASCII capital turned into its small letter.
pub fn to_lowercase(text: &Vec<u8>) -> (r: Vec<u8>)
    ensures
        r@ == lowercase(text@),
{
    let mut r: Vec<u8> = Vec::new();
    let mut i: usize = 0;
    while i < text.len()
        invariant
            i <= text.len(),
            r.len() == i,
            forall|j: int| 0 <= j < i ==> r[j] == lower(text[j]),
        decreases text.len() - i,
    {
        let b = text[i];
        if 65 <= b && b <= 90 {
            r.push(b + 32);
        } else {
            r.push(b);
        }
        i += 1;
    }
    assert(r@ =~= lowercase(text@));
    r
}

/// A copy of the text.
pub fn copy_bytes(text: &Vec<u8>) -> (r: Vec<u8>)
    ensures
        r@ == text@,
{
    let mut r: Vec<u8> = Vec::new();
    let mut i: usize = 0;
    while i < text.len()
        invariant
            i <= text.len(),
            r.len() == i,
            forall|j: int| 0 <= j < i ==> r[j] == text[j],
        decreases text.len() - i,
    {
        r.push(text[i]);
        i += 1;
    }
    assert(r@ =~= text@);
    r
}

/// The first column whose name, capitals turned small, is `name`.
pub fn find_column(header: &Vec<Vec<u8>>, name: &Vec<u8>) -> (r: Option<usize>)
    ensures
        r matches Some(c) ==> c < header.len() && named_column(header_view(header@), name@, 0)
            == Some(c as int),
        r is None ==> named_column(header_view(header@), name@, 0) is None,
{
    let ghost names = header_view(header@);
    let mut c: usize = 0;
    while c < header.len()
        invariant
            c <= header.len(),
            names == header_view(header@),
            named_column(names, name@, 0) == named_column(names, name@, c as int),
        decreases header.len() - c,
    {
        let small = to_lowercase(&header[c]);
        assert(names[c as int] == header[c as int]@);
        if same_bytes(&small, name) {
            return Some(c);
        }
        c += 1;
    }
    None
}

/// The texts of the fields of one record.
pub open spec fn header_view(fields: Seq<Vec<u8>>) -> Seq<Seq<u8>> {
    Seq::new(fields.len(), |c: int| fields[c]@)
}

/// The first of the text columns, from the one numbered `start` in the
/// list on, that the record does not reach.
pub open spec fn text_fault(row: Seq<Seq<u8>>, columns: Seq<usize>, start: int) -> Option<int>
    decreases columns.len() - start,
{
    if start < 0 || start >= columns.len() {
        None
    } else if columns[start] >= row.len() {
        Some(columns[start] as int)
    } else {
        text_fault(row, columns, start + 1)
    }
}

/// The number in the field `column` of the record, where the record
/// reaches that far and the field is a decimal number within `limit`.
pub open spec fn number_at(row: Seq<Seq<u8>>, column: int, limit: int) -> Option<int> {
    if 0 <= column < row.len() {
        parsed_decimal(row[column], limit)
    } else {
        None
    }
}

/// The first of the number columns, from the one numbered `start` in the
/// list on, whose field is missing or is no number within its limit.
pub open spec fn number_fault(
    row: Seq<Seq<u8>>,
    columns: Seq<usize>,
    limits: Seq<i64>,
    start: int,
) -> Option<int>
    decreases columns.len() - start,
{
    if start < 0 || start >= columns.len() {
        None
    } else if number_at(row, columns[start] as int, limits[start] as int) is None {
        Some(columns[start] as int)
    } else {
        number_fault(row, columns, limits, start + 1)
    }
}

/// The column at which reading the record fails: the first missing text
/// column, or else the first faulty number column.
pub open spec fn row_fault(
    row: Seq<Seq<u8>>,
    texts: Seq<usize>,
    numbers: Seq<usize>,
    limits: Seq<i64>,
) -> Option<int> {
    match text_fault(row, texts, 0) {
        Some(c) => Some(c),
        None => number_fault(row, numbers, limits, 0),
    }
}

/// `raw` holds what the record has in the columns asked for.
pub open spec fn is_raw_row(
    raw: RawRow,
    row: Seq<Seq<u8>>,
    texts: Seq<usize>,
    numbers: Seq<usize>,
    limits: Seq<i64>,
) -> bool {
    &&& raw.texts.len() == texts.len()
    &&& forall|i: int| 0 <= i < texts.len() ==> (#[trigger] texts[i]) < row.len()
    &&& forall|i: int| 0 <= i < texts.len() ==> (#[trigger] raw.texts[i])@ == row[texts[i] as int]
    &&& raw.numbers.len() == numbers.len()
    &&& forall|k: int|
        0 <= k < numbers.len() ==> number_at(row, numbers[k] as int, limits[k] as int) == Some(
            (#[trigger] raw.numbers[k]) as int,
        )
}

/// The first record from `start` on at which reading fails, with the
/// column of the fault.
pub open spec fn table_fault(
    table: Seq<Seq<Seq<u8>>>,
    texts: Seq<usize>,
    numbers: Seq<usize>,
    limits: Seq<i64>,
    start: int,
) -> Option<(int, int)>
    decreases table.len() - start,
{
    if start < 0 || start >= table.len() {
        None
    } else {
        match row_fault(table[start], texts, numbers, limits) {
            Some(c) => Some((start, c)),
            None => table_fault(table, texts, numbers, limits, start + 1),
        }
    }
}

/// The limits are such that numbers within them can be held.
pub open spec fn limits_ok(numbers: Seq<usize>, limits: Seq<i64>) -> bool {
    &&& limits.len() == numbers.len()
    &&& forall|k: int| 0 <= k < limits.len() ==> 0 <= (#[trigger] limits[k]) <= WORLD_LIMIT
}

/// Reads from one record the texts and the numbers of the columns asked
/// for, or says at which column that fails.
pub fn read_row(row: &Vec<Vec<u8>>, texts: &Vec<usize>, numbers: &Vec<usize>, limits: &Vec<i64>) -> (r:
    Result<RawRow, usize>)
    requires
        limits_ok(numbers@, limits@),
    ensures
        r matches Ok(raw) ==> row_fault(header_view(row@), texts@, numbers@, limits@) is None
            && is_raw_row(raw, header_view(row@), texts@, numbers@, limits@),
        r matches Err(c) ==> row_fault(header_view(row@), texts@, numbers@, limits@) == Some(
            c as int,
        ),
{
    let ghost fields = header_view(row@);
    let mut raw_texts: Vec<Vec<u8>> = Vec::new();
    let mut i: usize = 0;
    while i < texts.len()
        invariant
            i <= texts.len(),
            fields == header_view(row@),
            raw_texts.len() == i,
            text_fault(fields, texts@, 0) == text_fault(fields, texts@, i as int),
            fields.len() == row.len(),
            forall|j: int| 0 <= j < i ==> (#[trigger] texts[j]) < fields.len(),
            forall|j: int| 0 <= j < i ==> (#[trigger] raw_texts[j])@ == fields[texts[j] as int],
        decreases texts.len() - i,
    {
        let c = texts[i];
        if c >= row.len() {
            return Err(c);
        }
        assert(fields[c as int] == row[c as int]@);
        raw_texts.push(copy_bytes(&row[c]));
        i += 1;
    }
    assert(text_fault(fields, texts@, texts.len() as int) is None);
    let mut raw_numbers: Vec<i64> = Vec::new();
    let mut k: usize = 0;
    while k < numbers.len()
        invariant
            k <= numbers.len(),
            fields == header_view(row@),
            fields.len() == row.len(),
            limits_ok(numbers@, limits@),
            raw_numbers.len() == k,
            raw_texts.len() == texts.len(),
            forall|j: int| 0 <= j < texts.len() ==> (#[trigger] texts[j]) < fields.len(),
            forall|j: int|
                0 <= j < texts.len() ==> (#[trigger] raw_texts[j])@ == fields[texts[j] as int],
            text_fault(fields, texts@, 0) is None,
            number_fault(fields, numbers@, limits@, 0) == number_fault(
                fields,
                numbers@,
                limits@,
                k as int,
            ),
            forall|j: int|
                0 <= j < k ==> number_at(fields, numbers[j] as int, limits[j] as int) == Some(
                    (#[trigger] raw_numbers[j]) as int,
                ),
        decreases numbers.len() - k,
    {
        let c = numbers[k];
        if c >= row.len() {
            return Err(c);
        }
        assert(fields[c as int] == row[c as int]@);
        match parse_decimal(&row[c], limits[k]) {
            Some(v) => {
                raw_numbers.push(v);
            },
            None => {
                return Err(c);
            },
        }
        k += 1;
    }
    assert(number_fault(fields, numbers@, limits@, numbers.len() as int) is None);
    Ok(RawRow { texts: raw_texts, numbers: raw_numbers })
}

/// Reads from every record from `first` on the columns asked for. The
/// first record at which that fails ends the reading: its number, counted
/// from `first`, and the column are reported, and no row is returned.
pub fn read_rows(
    table: &Table,
    first: usize,
    texts: &Vec<usize>,
    numbers: &Vec<usize>,
    limits: &Vec<i64>,
) -> (r: Result<Vec<RawRow>, EngineError>)
    requires
        first <= table.rows.len(),
        limits_ok(numbers@, limits@),
    ensures
        match table_fault(table@.skip(first as int), texts@, numbers@, limits@, 0) {
            Some((row, column)) => r == Err::<Vec<RawRow>, EngineError>(
                EngineError::FieldParse { row: row as usize, column: column as usize },
            ),
            None => r is Ok,
        },
        r matches Ok(rows) ==> rows.len() == table.rows.len() - first && forall|i: int|
            0 <= i < rows.len() ==> is_raw_row(
                #[trigger] rows[i],
                table@[first + i],
                texts@,
                numbers@,
                limits@,
            ),
{
    let ghost data = table@.skip(first as int);
    let mut rows: Vec<RawRow> = Vec::new();
    let mut i: usize = first;
    while i < table.rows.len()
        invariant
            first <= i <= table.rows.len(),
            data == table@.skip(first as int),
            limits_ok(numbers@, limits@),
            rows.len() == i - first,
            table_fault(data, texts@, numbers@, limits@, 0) == table_fault(
                data,
                texts@,
                numbers@,
                limits@,
                i - first,
            ),
            forall|j: int|
                0 <= j < rows.len() ==> is_raw_row(
                    #[trigger] rows[j],
                    table@[first + j],
                    texts@,
                    numbers@,
                    limits@,
                ),
        decreases table.rows.len() - i,
    {
        assert(data[i - first] =~= header_view(table.rows[i as int]@));
        assert(table@[i as int] =~= header_view(table.rows[i as int]@));
        match read_row(&table.rows[i], texts, numbers, limits) {
            Ok(raw) => {
                rows.push(raw);
            },
            Err(column) => {
                return Err(EngineError::FieldParse { row: i - first, column });
            },
        }
        i += 1;
    }
    Ok(rows)
}

/// The header that a table is read by: its first record where it has a
/// header row, else the usual header of its kind. A table that should
/// have a header row and has no record at all has no column.
pub open spec fn effective_header(
    table: Seq<Seq<Seq<u8>>>,
    has_header: bool,
    usual: Seq<Seq<u8>>,
) -> Seq<Seq<u8>> {
    if !has_header {
        usual
    } else if table.len() > 0 {
        table[0]
    } else {
        Seq::empty()
    }
}

/// The records that hold data: all but the header row.
pub open spec fn data_records(table: Seq<Seq<Seq<u8>>>, has_header: bool) -> Seq<Seq<Seq<u8>>> {
    if has_header && table.len() > 0 {
        table.skip(1)
    } else {
        table
    }
}

/// The first of the names, from the one numbered `start` on, that no
/// column of the header has.
pub open spec fn first_missing(header: Seq<Seq<u8>>, names: Seq<Seq<u8>>, start: int) -> Option<
    int,
>
    decreases names.len() - start,
{
    if start < 0 || start >= names.len() {
        None
    } else if named_column(header, names[start], 0) is None {
        Some(start)
    } else {
        first_missing(header, names, start + 1)
    }
}

/// The columns that have the given names, in the order of the names.
pub open spec fn columns_of(header: Seq<Seq<u8>>, names: Seq<Seq<u8>>) -> Seq<usize> {
    Seq::new(names.len(), |k: int| named_column(header, names[k], 0).unwrap() as usize)
}

/// The columns that have the given names, or the number of the first name
/// that no column has.
pub fn locate(header: &Vec<Vec<u8>>, names: &Vec<Vec<u8>>) -> (r: Result<Vec<usize>, usize>)
    ensures
        r matches Ok(columns) ==> first_missing(header_view(header@), header_view(names@), 0)
            is None && columns@ == columns_of(header_view(header@), header_view(names@)),
        r matches Err(k) ==> first_missing(header_view(header@), header_view(names@), 0) == Some(
            k as int,
        ),
{
    let ghost h = header_view(header@);
    let ghost n = header_view(names@);
    let mut columns: Vec<usize> = Vec::new();
    let mut k: usize = 0;
    while k < names.len()
        invariant
            k <= names.len(),
            h == header_view(header@),
            n == header_view(names@),
            columns.len() == k,
            first_missing(h, n, 0) == first_missing(h, n, k as int),
            forall|j: int|
                0 <= j < k ==> named_column(h, n[j], 0) == Some((#[trigger] columns[j]) as int),
        decreases names.len() - k,
    {
        assert(n[k as int] == names[k as int]@);
        match find_column(header, &names[k]) {
            Some(c) => {
                columns.push(c);
            },
            None => {
                return Err(k);
            },
        }
        k += 1;
    }
    assert(first_missing(h, n, names.len() as int) is None);
    assert(columns@ =~= columns_of(h, n));
    Ok(columns)
}

/// The header that a table is read by, copied out.
pub fn effective_header_of(table: &Table, has_header: bool, usual: &Vec<Vec<u8>>) -> (r: Vec<
    Vec<u8>,
>)
    ensures
        header_view(r@) == effective_header(table@, has_header, header_view(usual@)),
{
    let mut r: Vec<Vec<u8>> = Vec::new();
    if has_header && table.rows.len() == 0 {
        assert(header_view(r@) =~= Seq::<Seq<u8>>::empty());
        return r;
    }
    let source: &Vec<Vec<u8>> = if has_header {
        assert(table@[0] =~= header_view(table.rows[0]@));
        &table.rows[0]
    } else {
        usual
    };
    let mut c: usize = 0;
    while c < source.len()
        invariant
            c <= source.len(),
            r.len() == c,
            forall|j: int| 0 <= j < c ==> (#[trigger] r[j])@ == source[j]@,
        decreases source.len() - c,
    {
        r.push(copy_bytes(&source[c]));
        c += 1;
    }
    assert(header_view(r@) =~= header_view(source@));
    r
}

/// Where the data records begin: after the header row, if there is one.
pub fn data_start(table: &Table, has_header: bool) -> (first: usize)
    ensures
        first <= table.rows.len(),
        data_records(table@, has_header) == table@.skip(first as int),
{
    if has_header && table.rows.len() > 0 {
        1
    } else {
        assert(table@.skip(0) =~= table@);
        0
    }
}

/// How the reading of a table by column names begins: with the columns
/// of the text names and of the number names, or with the fault that ends
/// it. A name that no column has is a fault at the first record, in the
/// column that the name has among the names, texts before numbers.
pub open spec fn reading_plan(
    table: Seq<Seq<Seq<u8>>>,
    has_header: bool,
    usual: Seq<Seq<u8>>,
    text_names: Seq<Seq<u8>>,
    number_names: Seq<Seq<u8>>,
    limits: Seq<i64>,
) -> Result<(Seq<usize>, Seq<usize>), EngineError> {
    let header = effective_header(table, has_header, usual);
    match first_missing(header, text_names + number_names, 0) {
        Some(k) => Err(EngineError::FieldParse { row: 0, column: k as usize }),
        None => {
            let texts = columns_of(header, text_names);
            let numbers = columns_of(header, number_names);
            match table_fault(data_records(table, has_header), texts, numbers, limits, 0) {
                Some((row, column)) => Err(
                    EngineError::FieldParse { row: row as usize, column: column as usize },
                ),
                None => Ok((texts, numbers)),
            }
        },
    }
}

/// Reads a table by column names: the columns are looked up in the
/// header, and from every data record the texts and numbers of those
/// columns are read.
pub fn read_named(
    table: &Table,
    has_header: bool,
    usual: &Vec<Vec<u8>>,
    text_names: &Vec<Vec<u8>>,
    number_names: &Vec<Vec<u8>>,
    limits: &Vec<i64>,
) -> (r: Result<Vec<RawRow>, EngineError>)
    requires
        limits.len() == number_names.len(),
        forall|k: int| 0 <= k < limits.len() ==> 0 <= (#[trigger] limits[k]) <= WORLD_LIMIT,
    ensures
        match reading_plan(
            table@,
            has_header,
            header_view(usual@),
            header_view(text_names@),
            header_view(number_names@),
            limits@,
        ) {
            Err(e) => r == Err::<Vec<RawRow>, EngineError>(e),
            Ok((texts, numbers)) => r matches Ok(rows) && rows.len() == data_records(
                table@,
                has_header,
            ).len() && forall|i: int|
                0 <= i < rows.len() ==> is_raw_row(
                    #[trigger] rows[i],
                    data_records(table@, has_header)[i],
                    texts,
                    numbers,
                    limits@,
                ),
        },
{
    let ghost tn = header_view(text_names@);
    let ghost nn = header_view(number_names@);
    let mut names: Vec<Vec<u8>> = Vec::new();
    let mut i: usize = 0;
    while i < text_names.len()
        invariant
            i <= text_names.len(),
            names.len() == i,
            forall|j: int| 0 <= j < i ==> (#[trigger] names[j])@ == text_names[j]@,
        decreases text_names.len() - i,
    {
        names.push(copy_bytes(&text_names[i]));
        i += 1;
    }
    let mut k: usize = 0;
    while k < number_names.len()
        invariant
            k <= number_names.len(),
            names.len() == text_names.len() + k,
            forall|j: int|
                0 <= j < text_names.len() ==> (#[trigger] names[j])@ == text_names[j]@,
            forall|j: int|
                0 <= j < k ==> (#[trigger] names[text_names.len() + j])@ == number_names[j]@,
        decreases number_names.len() - k,
    {
        names.push(copy_bytes(&number_names[k]));
        k += 1;
    }
    assert(header_view(names@) =~= tn + nn) by {
        assert forall|j: int| 0 <= j < names.len() implies header_view(names@)[j] == (tn + nn)[j] by {
            if j >= text_names.len() {
                assert(names[text_names.len() + (j - text_names.len())]@ == number_names[j
                    - text_names.len()]@);
            }
        }
    }
    let header_row = effective_header_of(table, has_header, usual);
    let all = match locate(&header_row, &names) {
        Ok(all) => all,
        Err(missing) => {
            return Err(EngineError::FieldParse { row: 0, column: missing });
        },
    };
    let ghost header = effective_header(table@, has_header, header_view(usual@));
    let mut texts: Vec<usize> = Vec::new();
    let mut numbers: Vec<usize> = Vec::new();
    let mut j: usize = 0;
    while j < all.len()
        invariant
            j <= all.len(),
            all.len() == text_names.len() + number_names.len(),
            all@ == columns_of(header, tn + nn),
            tn.len() == text_names.len(),
            nn.len() == number_names.len(),
            j <= text_names.len() ==> texts.len() == j && numbers.len() == 0,
            j > text_names.len() ==> texts.len() == text_names.len() && numbers.len() == j
                - text_names.len(),
            forall|t: int| 0 <= t < texts.len() ==> (#[trigger] texts[t]) == all[t],
            forall|t: int|
                0 <= t < numbers.len() ==> (#[trigger] numbers[t]) == all[text_names.len() + t],
        decreases all.len() - j,
    {
        if j < text_names.len() {
            texts.push(all[j]);
        } else {
            numbers.push(all[j]);
        }
        j += 1;
    }
    assert(texts@ =~= columns_of(header, tn));
    assert(numbers@ =~= columns_of(header, nn));
    let first = data_start(table, has_header);
    read_rows(table, first, &texts, &numbers, limits)
}

} // verus!
