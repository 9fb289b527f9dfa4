use vstd::prelude::*;
use crate::decimal::lemma_parsed_within;
use crate::drillhole::{
    assays_wf, collars_wf, same_bytes, stations_wf, AssayInterval, HoleCollar, SurveyStation,
    DEPTH_LIMIT,
};
use crate::error::EngineError;
use crate::grade::GRADE_LIMIT;
use crate::point::WORLD_LIMIT;
use crate::tabular::{
    columns_of, copy_bytes, data_records, data_start, effective_header, effective_header_of,
    first_missing, header_view, is_raw_row, locate, lowercase, number_at, read_named, read_rows,
    reading_plan, table_fault, to_lowercase, Table,
};

verus! {

/// The column name `hole-id`.
pub open spec fn name_hole_id() -> Seq<u8> {
    seq![104u8, 111u8, 108u8, 101u8, 45u8, 105u8, 100u8]
}

/// The column name `x`.
pub open spec fn name_x() -> Seq<u8> {
    seq![120u8]
}

/// The column name `y`.
pub open spec fn name_y() -> Seq<u8> {
    seq![121u8]
}

/// The column name `z`.
pub open spec fn name_z() -> Seq<u8> {
    seq![122u8]
}

/// The column name `from`.
pub open spec fn name_from() -> Seq<u8> {
    seq![102u8, 114u8, 111u8, 109u8]
}

/// The column name `to`.
pub open spec fn name_to() -> Seq<u8> {
    seq![116u8, 111u8]
}

/// The column name `azimuth`.
pub open spec fn name_azimuth() -> Seq<u8> {
    seq![97u8, 122u8, 105u8, 109u8, 117u8, 116u8, 104u8]
}

/// The column name `dip`.
pub open spec fn name_dip() -> Seq<u8> {
    seq![100u8, 105u8, 112u8]
}

/// The usual header of a collar table: `hole-id, x, y, z`.
pub open spec fn collar_header() -> Seq<Seq<u8>> {
    seq![name_hole_id(), name_x(), name_y(), name_z()]
}

/// The usual header of a survey table: `hole-id, from, to, azimuth, dip`.
pub open spec fn survey_header() -> Seq<Seq<u8>> {
    seq![name_hole_id(), name_from(), name_to(), name_azimuth(), name_dip()]
}

/// As many survey limits as there are number columns.
pub open spec fn world_limits(n: nat) -> Seq<i64> {
    Seq::new(n, |k: int| WORLD_LIMIT)
}

/// The limits of the number columns of a survey table: depths within the
/// depth limit, angles within the survey limit.
pub open spec fn survey_limits() -> Seq<i64> {
    seq![DEPTH_LIMIT, DEPTH_LIMIT, WORLD_LIMIT, WORLD_LIMIT]
}

/// The limits of two depth columns.
pub open spec fn depth_limits() -> Seq<i64> {
    seq![DEPTH_LIMIT, DEPTH_LIMIT]
}

/// How the reading of a collar table begins: with the column of the hole
/// identifier and those of `x`, `y` and `z`, or with the fault that ends it.
pub open spec fn collar_plan(table: Seq<Seq<Seq<u8>>>, has_header: bool) -> Result<
    (Seq<usize>, Seq<usize>),
    EngineError,
> {
    reading_plan(
        table,
        has_header,
        collar_header(),
        seq![name_hole_id()],
        seq![name_x(), name_y(), name_z()],
        world_limits(3),
    )
}

/// How the reading of a survey table begins: with the column of the hole
/// identifier and those of `from`, `to`, `azimuth` and `dip`, or with the
/// fault that ends it.
pub open spec fn survey_plan(table: Seq<Seq<Seq<u8>>>, has_header: bool) -> Result<
    (Seq<usize>, Seq<usize>),
    EngineError,
> {
    reading_plan(
        table,
        has_header,
        survey_header(),
        seq![name_hole_id()],
        seq![name_from(), name_to(), name_azimuth(), name_dip()],
        survey_limits(),
    )
}

/// The collar holds what the record has in the columns of the plan.
pub open spec fn is_collar(
    collar: HoleCollar,
    row: Seq<Seq<u8>>,
    texts: Seq<usize>,
    numbers: Seq<usize>,
) -> bool {
    &&& texts[0] < row.len()
    &&& collar.hole_id@ == row[texts[0] as int]
    &&& number_at(row, numbers[0] as int, WORLD_LIMIT as int) == Some(collar.x as int)
    &&& number_at(row, numbers[1] as int, WORLD_LIMIT as int) == Some(collar.y as int)
    &&& number_at(row, numbers[2] as int, WORLD_LIMIT as int) == Some(collar.z as int)
}

/// The station holds what the record has in the columns of the plan.
pub open spec fn is_station(
    station: SurveyStation,
    row: Seq<Seq<u8>>,
    texts: Seq<usize>,
    numbers: Seq<usize>,
) -> bool {
    &&& texts[0] < row.len()
    &&& station.hole_id@ == row[texts[0] as int]
    &&& number_at(row, numbers[0] as int, DEPTH_LIMIT as int) == Some(station.from as int)
    &&& number_at(row, numbers[1] as int, DEPTH_LIMIT as int) == Some(station.to as int)
    &&& number_at(row, numbers[2] as int, WORLD_LIMIT as int) == Some(station.azimuth as int)
    &&& number_at(row, numbers[3] as int, WORLD_LIMIT as int) == Some(station.dip as int)
}

/// A name from its bytes.
fn name_of(bytes: &[u8]) -> (r: Vec<u8>)
    ensures
        r@ == bytes@,
{
    let mut r: Vec<u8> = Vec::new();
    let mut i: usize = 0;
    while i < bytes.len()
        invariant
            i <= bytes.len(),
            r.len() == i,
            forall|j: int| 0 <= j < i ==> r[j] == bytes[j],
        decreases bytes.len() - i,
    {
        r.push(bytes[i]);
        i += 1;
    }
    assert(r@ =~= bytes@);
    r
}

/// The name `hole-id`.
fn hole_id_name() -> (r: Vec<u8>)
    ensures
        r@ == name_hole_id(),
{
    let bytes: [u8; 7] = [104, 111, 108, 101, 45, 105, 100];
    let r = name_of(&bytes);
    assert(r@ =~= name_hole_id());
    r
}

/// The name `from`.
fn from_name() -> (r: Vec<u8>)
    ensures
        r@ == name_from(),
{
    let bytes: [u8; 4] = [102, 114, 111, 109];
    let r = name_of(&bytes);
    assert(r@ =~= name_from());
    r
}

/// The name `to`.
fn to_name() -> (r: Vec<u8>)
    ensures
        r@ == name_to(),
{
    let bytes: [u8; 2] = [116, 111];
    let r = name_of(&bytes);
    assert(r@ =~= name_to());
    r
}

/// A name of one letter.
fn letter_name(letter: u8) -> (r: Vec<u8>)
    ensures
        r@ == seq![letter],
{
    let bytes: [u8; 1] = [letter];
    let r = name_of(&bytes);
    assert(r@ =~= seq![letter]);
    r
}

/// The name `azimuth`.
fn azimuth_name() -> (r: Vec<u8>)
    ensures
        r@ == name_azimuth(),
{
    let bytes: [u8; 7] = [97, 122, 105, 109, 117, 116, 104];
    let r = name_of(&bytes);
    assert(r@ =~= name_azimuth());
    r
}

/// The name `dip`.
fn dip_name() -> (r: Vec<u8>)
    ensures
        r@ == name_dip(),
{
    let bytes: [u8; 3] = [100, 105, 112];
    let r = name_of(&bytes);
    assert(r@ =~= name_dip());
    r
}

/// As many survey limits as asked for.
fn world_limit_list(n: usize) -> (r: Vec<i64>)
    ensures
        r@ == world_limits(n as nat),
{
    let mut r: Vec<i64> = Vec::new();
    let mut k: usize = 0;
    while k < n
        invariant
            k <= n,
            r.len() == k,
            forall|j: int| 0 <= j < k ==> r[j] == WORLD_LIMIT,
        decreases n - k,
    {
        r.push(WORLD_LIMIT);
        k += 1;
    }
    assert(r@ =~= world_limits(n as nat));
    r
}

/// Reads the collars of a header table: one for every data record, from
/// the columns `hole-id`, `x`, `y` and `z`. The first fault ends the
/// reading, and no collar is returned.
pub fn collars_from_table(table: &Table, has_header: bool) -> (r: Result<
    Vec<HoleCollar>,
    EngineError,
>)
    ensures
        match collar_plan(table@, has_header) {
            Err(e) => r == Err::<Vec<HoleCollar>, EngineError>(e),
            Ok((texts, numbers)) => r matches Ok(collars) && collars.len() == data_records(
                table@,
                has_header,
            ).len() && forall|i: int|
                0 <= i < collars.len() ==> is_collar(
                    #[trigger] collars[i],
                    data_records(table@, has_header)[i],
                    texts,
                    numbers,
                ),
        },
        r matches Ok(collars) ==> collars_wf(collars@),
{
    let mut usual: Vec<Vec<u8>> = Vec::new();
    usual.push(hole_id_name());
    usual.push(letter_name(120));
    usual.push(letter_name(121));
    usual.push(letter_name(122));
    assert(header_view(usual@) =~= collar_header());
    let mut text_names: Vec<Vec<u8>> = Vec::new();
    text_names.push(hole_id_name());
    assert(header_view(text_names@) =~= seq![name_hole_id()]);
    let mut number_names: Vec<Vec<u8>> = Vec::new();
    number_names.push(letter_name(120));
    number_names.push(letter_name(121));
    number_names.push(letter_name(122));
    assert(header_view(number_names@) =~= seq![name_x(), name_y(), name_z()]);
    let limits = world_limit_list(3);
    let rows = match read_named(table, has_header, &usual, &text_names, &number_names, &limits) {
        Ok(rows) => rows,
        Err(e) => {
            return Err(e);
        },
    };
    let ghost plan = collar_plan(table@, has_header);
    let ghost texts = plan->Ok_0.0;
    let ghost numbers = plan->Ok_0.1;
    let ghost data = data_records(table@, has_header);
    let mut collars: Vec<HoleCollar> = Vec::new();
    let mut i: usize = 0;
    while i < rows.len()
        invariant
            i <= rows.len(),
            collars.len() == i,
            rows.len() == data.len(),
            texts.len() == 1,
            numbers.len() == 3,
            forall|j: int|
                0 <= j < rows.len() ==> is_raw_row(
                    #[trigger] rows[j],
                    data[j],
                    texts,
                    numbers,
                    world_limits(3),
                ),
            forall|j: int| 0 <= j < i ==> is_collar(#[trigger] collars[j], data[j], texts, numbers),
            forall|j: int| 0 <= j < i ==> (#[trigger] collars[j]).wf(),
        decreases rows.len() - i,
    {
        let raw = &rows[i];
        assert(is_raw_row(*raw, data[i as int], texts, numbers, world_limits(3)));
        assert(texts[0] < data[i as int].len());
        proof {
            lemma_parsed_within(
                data[i as int][numbers[0] as int],
                WORLD_LIMIT as int,
            );
            lemma_parsed_within(
                data[i as int][numbers[1] as int],
                WORLD_LIMIT as int,
            );
            lemma_parsed_within(
                data[i as int][numbers[2] as int],
                WORLD_LIMIT as int,
            );
        }
        let collar = HoleCollar {
            hole_id: copy_bytes(&raw.texts[0]),
            x: raw.numbers[0],
            y: raw.numbers[1],
            z: raw.numbers[2],
        };
        collars.push(collar);
        i += 1;
    }
    Ok(collars)
}

/// Reads the stations of a survey table: one for every data record, from
/// the columns `hole-id`, `from`, `to`, `azimuth` and `dip`. The first
/// fault ends the reading, and no station is returned.
pub fn stations_from_table(table: &Table, has_header: bool) -> (r: Result<
    Vec<SurveyStation>,
    EngineError,
>)
    ensures
        match survey_plan(table@, has_header) {
            Err(e) => r == Err::<Vec<SurveyStation>, EngineError>(e),
            Ok((texts, numbers)) => r matches Ok(stations) && stations.len() == data_records(
                table@,
                has_header,
            ).len() && forall|i: int|
                0 <= i < stations.len() ==> is_station(
                    #[trigger] stations[i],
                    data_records(table@, has_header)[i],
                    texts,
                    numbers,
                ),
        },
        r matches Ok(stations) ==> stations_wf(stations@),
{
    let mut usual: Vec<Vec<u8>> = Vec::new();
    usual.push(hole_id_name());
    usual.push(from_name());
    usual.push(to_name());
    usual.push(azimuth_name());
    usual.push(dip_name());
    assert(header_view(usual@) =~= survey_header());
    let mut text_names: Vec<Vec<u8>> = Vec::new();
    text_names.push(hole_id_name());
    assert(header_view(text_names@) =~= seq![name_hole_id()]);
    let mut number_names: Vec<Vec<u8>> = Vec::new();
    number_names.push(from_name());
    number_names.push(to_name());
    number_names.push(azimuth_name());
    number_names.push(dip_name());
    assert(header_view(number_names@) =~= seq![
        name_from(),
        name_to(),
        name_azimuth(),
        name_dip(),
    ]);
    let mut limits: Vec<i64> = Vec::new();
    limits.push(DEPTH_LIMIT);
    limits.push(DEPTH_LIMIT);
    limits.push(WORLD_LIMIT);
    limits.push(WORLD_LIMIT);
    assert(limits@ =~= survey_limits());
    let rows = match read_named(table, has_header, &usual, &text_names, &number_names, &limits) {
        Ok(rows) => rows,
        Err(e) => {
            return Err(e);
        },
    };
    let ghost plan = survey_plan(table@, has_header);
    let ghost texts = plan->Ok_0.0;
    let ghost numbers = plan->Ok_0.1;
    let ghost data = data_records(table@, has_header);
    let mut stations: Vec<SurveyStation> = Vec::new();
    let mut i: usize = 0;
    while i < rows.len()
        invariant
            i <= rows.len(),
            stations.len() == i,
            rows.len() == data.len(),
            texts.len() == 1,
            numbers.len() == 4,
            forall|j: int|
                0 <= j < rows.len() ==> is_raw_row(
                    #[trigger] rows[j],
                    data[j],
                    texts,
                    numbers,
                    survey_limits(),
                ),
            forall|j: int|
                0 <= j < i ==> is_station(#[trigger] stations[j], data[j], texts, numbers),
            forall|j: int| 0 <= j < i ==> (#[trigger] stations[j]).wf(),
        decreases rows.len() - i,
    {
        let raw = &rows[i];
        assert(is_raw_row(*raw, data[i as int], texts, numbers, survey_limits()));
        assert(texts[0] < data[i as int].len());
        proof {
            lemma_parsed_within(data[i as int][numbers[0] as int], DEPTH_LIMIT as int);
            lemma_parsed_within(data[i as int][numbers[1] as int], DEPTH_LIMIT as int);
        }
        let station = SurveyStation {
            hole_id: copy_bytes(&raw.texts[0]),
            from: raw.numbers[0],
            to: raw.numbers[1],
            azimuth: raw.numbers[2],
            dip: raw.numbers[3],
        };
        stations.push(station);
        i += 1;
    }
    Ok(stations)
}

/// The column name `au`.
pub open spec fn name_au() -> Seq<u8> {
    seq![97u8, 117u8]
}

/// The column name `cu`.
pub open spec fn name_cu() -> Seq<u8> {
    seq![99u8, 117u8]
}

/// The column name `rock`.
pub open spec fn name_rock() -> Seq<u8> {
    seq![114u8, 111u8, 99u8, 107u8]
}

/// The usual header of an assay table: `hole-id, from, to, au, cu`.
pub open spec fn assay_header() -> Seq<Seq<u8>> {
    seq![name_hole_id(), name_from(), name_to(), name_au(), name_cu()]
}

/// The usual header of a lithology table: `hole-id, from, to, rock`.
pub open spec fn lithology_header() -> Seq<Seq<u8>> {
    seq![name_hole_id(), name_from(), name_to(), name_rock()]
}

/// The assay intervals of a dataset with the names of their grade
/// attributes: the grade number `k` of every interval is of the attribute
/// number `k`. The names are in small letters.
#[derive(Clone, Debug, PartialEq, Eq)]
pub struct AssayTable {
    pub attributes: Vec<Vec<u8>>,
    pub intervals: Vec<AssayInterval>,
}

/// A range of depths in a hole with the rock found there.
#[derive(Clone, Debug, PartialEq, Eq)]
pub struct LithologyInterval {
    pub hole_id: Vec<u8>,
    pub from: i64,
    pub to: i64,
    pub rock: Vec<u8>,
}

/// The columns among the first `upto` that are not among `taken`, in
/// ascending order.
pub open spec fn other_columns(taken: Seq<usize>, upto: int) -> Seq<usize>
    decreases upto,
{
    if upto <= 0 {
        Seq::empty()
    } else {
        let earlier = other_columns(taken, upto - 1);
        if taken.contains((upto - 1) as usize) {
            earlier
        } else {
            earlier.push((upto - 1) as usize)
        }
    }
}

/// The columns that an assay table is read by: that of the hole
/// identifier, and those of `from` and `to` followed by every other
/// column, each of which holds the grades of one attribute. A name that no
/// column has is a fault at the first record.
pub open spec fn assay_columns(table: Seq<Seq<Seq<u8>>>, has_header: bool) -> Result<
    (Seq<usize>, Seq<usize>),
    EngineError,
> {
    let header = effective_header(table, has_header, assay_header());
    let names = seq![name_hole_id(), name_from(), name_to()];
    match first_missing(header, names, 0) {
        Some(k) => Err(EngineError::FieldParse { row: 0, column: k as usize }),
        None => {
            let taken = columns_of(header, names);
            Ok(
                (
                    seq![taken[0]],
                    seq![taken[1], taken[2]] + other_columns(taken, header.len() as int),
                ),
            )
        },
    }
}

/// The limits of the number columns of an assay table: depths within the
/// depth limit, grades within the grade limit.
pub open spec fn assay_limits(n: nat) -> Seq<i64> {
    Seq::new(
        n,
        |k: int|
            if k < 2 {
                DEPTH_LIMIT
            } else {
                GRADE_LIMIT
            },
    )
}

/// How the reading of an assay table begins: with its columns, or with
/// the fault that ends it.
pub open spec fn assay_plan(table: Seq<Seq<Seq<u8>>>, has_header: bool) -> Result<
    (Seq<usize>, Seq<usize>),
    EngineError,
> {
    match assay_columns(table, has_header) {
        Err(e) => Err(e),
        Ok((texts, numbers)) => match table_fault(
            data_records(table, has_header),
            texts,
            numbers,
            assay_limits(numbers.len()),
            0,
        ) {
            Some((row, column)) => Err(
                EngineError::FieldParse { row: row as usize, column: column as usize },
            ),
            None => Ok((texts, numbers)),
        },
    }
}

/// How the reading of a lithology table begins: with the columns of the
/// hole identifier and of `rock` and those of `from` and `to`, or with the
/// fault that ends it.
pub open spec fn lithology_plan(table: Seq<Seq<Seq<u8>>>, has_header: bool) -> Result<
    (Seq<usize>, Seq<usize>),
    EngineError,
> {
    reading_plan(
        table,
        has_header,
        lithology_header(),
        seq![name_hole_id(), name_rock()],
        seq![name_from(), name_to()],
        depth_limits(),
    )
}

/// The interval holds what the record has in the columns of the plan.
pub open spec fn is_assay(
    assay: AssayInterval,
    row: Seq<Seq<u8>>,
    texts: Seq<usize>,
    numbers: Seq<usize>,
) -> bool {
    &&& texts[0] < row.len()
    &&& assay.hole_id@ == row[texts[0] as int]
    &&& number_at(row, numbers[0] as int, DEPTH_LIMIT as int) == Some(assay.from as int)
    &&& number_at(row, numbers[1] as int, DEPTH_LIMIT as int) == Some(assay.to as int)
    &&& assay.grades.len() == numbers.len() - 2
    &&& forall|k: int|
        0 <= k < assay.grades.len() ==> number_at(
            row,
            numbers[k + 2] as int,
            GRADE_LIMIT as int,
        ) == Some((#[trigger] assay.grades[k]) as int)
}

/// The interval holds what the record has in the columns of the plan.
pub open spec fn is_lithology(
    interval: LithologyInterval,
    row: Seq<Seq<u8>>,
    texts: Seq<usize>,
    numbers: Seq<usize>,
) -> bool {
    &&& texts[0] < row.len()
    &&& texts[1] < row.len()
    &&& interval.hole_id@ == row[texts[0] as int]
    &&& interval.rock@ == row[texts[1] as int]
    &&& number_at(row, numbers[0] as int, DEPTH_LIMIT as int) == Some(interval.from as int)
    &&& number_at(row, numbers[1] as int, DEPTH_LIMIT as int) == Some(interval.to as int)
}

/// The first attribute from `start` on with the given name.
pub open spec fn named_attribute(attributes: Seq<Vec<u8>>, name: Seq<u8>, start: int) -> Option<
    int,
>
    decreases attributes.len() - start,
{
    if start < 0 || start >= attributes.len() {
        None
    } else if attributes[start]@ == name {
        Some(start)
    } else {
        named_attribute(attributes, name, start + 1)
    }
}

impl AssayTable {
    /// Every interval has one grade for each attribute, within the limits.
    pub open spec fn wf(&self) -> bool {
        assays_wf(self.intervals@, self.attributes.len() as int)
    }

    /// Which grade of every interval belongs to the attribute with this
    /// name, given in small letters.
    pub fn attribute_index(&self, name: &Vec<u8>) -> (r: Option<usize>)
        ensures
            r matches Some(k) ==> k < self.attributes.len() && named_attribute(
                self.attributes@,
                name@,
                0,
            ) == Some(k as int),
            r is None ==> named_attribute(self.attributes@, name@, 0) is None,
    {
        let mut k: usize = 0;
        while k < self.attributes.len()
            invariant
                k <= self.attributes.len(),
                named_attribute(self.attributes@, name@, 0) == named_attribute(
                    self.attributes@,
                    name@,
                    k as int,
                ),
            decreases self.attributes.len() - k,
        {
            if same_bytes(&self.attributes[k], name) {
                return Some(k);
            }
            k += 1;
        }
        None
    }
}

/// The name `au`.
fn au_name() -> (r: Vec<u8>)
    ensures
        r@ == name_au(),
{
    let bytes: [u8; 2] = [97, 117];
    let r = name_of(&bytes);
    assert(r@ =~= name_au());
    r
}

/// The name `cu`.
fn cu_name() -> (r: Vec<u8>)
    ensures
        r@ == name_cu(),
{
    let bytes: [u8; 2] = [99, 117];
    let r = name_of(&bytes);
    assert(r@ =~= name_cu());
    r
}

/// The name `rock`.
fn rock_name() -> (r: Vec<u8>)
    ensures
        r@ == name_rock(),
{
    let bytes: [u8; 4] = [114, 111, 99, 107];
    let r = name_of(&bytes);
    assert(r@ =~= name_rock());
    r
}

/// The columns of a header of the given width that are none of the three
/// taken ones, in ascending order.
fn columns_besides(taken: &Vec<usize>, width: usize) -> (others: Vec<usize>)
    requires
        taken.len() == 3,
    ensures
        others@ == other_columns(taken@, width as int),
        forall|k: int| 0 <= k < others.len() ==> (#[trigger] others[k]) < width,
{
    let mut others: Vec<usize> = Vec::new();
    let mut c: usize = 0;
    while c < width
        invariant
            c <= width,
            taken.len() == 3,
            others@ == other_columns(taken@, c as int),
            forall|k: int| 0 <= k < others.len() ==> (#[trigger] others[k]) < width,
        decreases width - c,
    {
        if c == taken[0] || c == taken[1] || c == taken[2] {
            assert(taken@.contains(c)) by {
                if c == taken[0] {
                    assert(taken@[0] == c);
                } else if c == taken[1] {
                    assert(taken@[1] == c);
                } else {
                    assert(taken@[2] == c);
                }
            }
        } else {
            others.push(c);
        }
        c += 1;
    }
    others
}

/// Reads the intervals of an assay table: one for every data record, from
/// the columns `hole-id`, `from` and `to`, with one grade from every other
/// column. The names of those columns, in small letters, are the grade
/// attributes. The first fault ends the reading, and nothing is returned.
pub fn assays_from_table(table: &Table, has_header: bool) -> (r: Result<AssayTable, EngineError>)
    ensures
        match assay_plan(table@, has_header) {
            Err(e) => r == Err::<AssayTable, EngineError>(e),
            Ok((texts, numbers)) => r matches Ok(assays) && {
                let header = effective_header(table@, has_header, assay_header());
                &&& assays.attributes.len() == numbers.len() - 2
                &&& forall|k: int|
                    0 <= k < assays.attributes.len() ==> (#[trigger] assays.attributes[k])@
                        == lowercase(header[numbers[k + 2] as int])
                &&& assays.intervals.len() == data_records(table@, has_header).len()
                &&& forall|i: int|
                    0 <= i < assays.intervals.len() ==> is_assay(
                        #[trigger] assays.intervals[i],
                        data_records(table@, has_header)[i],
                        texts,
                        numbers,
                    )
            },
        },
        r matches Ok(assays) ==> assays.wf(),
{
    let mut usual: Vec<Vec<u8>> = Vec::new();
    usual.push(hole_id_name());
    usual.push(from_name());
    usual.push(to_name());
    usual.push(au_name());
    usual.push(cu_name());
    assert(header_view(usual@) =~= assay_header());
    let mut names: Vec<Vec<u8>> = Vec::new();
    names.push(hole_id_name());
    names.push(from_name());
    names.push(to_name());
    assert(header_view(names@) =~= seq![name_hole_id(), name_from(), name_to()]);
    let header_row = effective_header_of(table, has_header, &usual);
    let ghost header = header_view(header_row@);
    let taken = match locate(&header_row, &names) {
        Ok(taken) => taken,
        Err(missing) => {
            return Err(EngineError::FieldParse { row: 0, column: missing });
        },
    };
    assert(taken.len() == 3);
    let others = columns_besides(&taken, header_row.len());
    let mut texts: Vec<usize> = Vec::new();
    texts.push(taken[0]);
    let mut numbers: Vec<usize> = Vec::new();
    numbers.push(taken[1]);
    numbers.push(taken[2]);
    let mut limits: Vec<i64> = Vec::new();
    limits.push(DEPTH_LIMIT);
    limits.push(DEPTH_LIMIT);
    let mut attributes: Vec<Vec<u8>> = Vec::new();
    let mut k: usize = 0;
    while k < others.len()
        invariant
            k <= others.len(),
            header == header_view(header_row@),
            numbers.len() == k + 2,
            limits.len() == k + 2,
            attributes.len() == k,
            taken.len() == 3,
            numbers[0] == taken[1],
            numbers[1] == taken[2],
            forall|j: int| 0 <= j < others.len() ==> (#[trigger] others[j]) < header_row.len(),
            forall|j: int| 0 <= j < k ==> (#[trigger] numbers[j + 2]) == others[j],
            forall|j: int|
                0 <= j < k + 2 ==> (#[trigger] limits[j]) == assay_limits((k + 2) as nat)[j],
            forall|j: int|
                0 <= j < k ==> (#[trigger] attributes[j])@ == lowercase(header[others[j] as int]),
        decreases others.len() - k,
    {
        let c = others[k];
        numbers.push(c);
        limits.push(GRADE_LIMIT);
        assert(header[c as int] == header_row[c as int]@);
        attributes.push(to_lowercase(&header_row[c]));
        k += 1;
    }
    assert(texts@ =~= seq![taken[0]]);
    assert(numbers@ =~= seq![taken[1], taken[2]] + others@) by {
        assert forall|j: int| 0 <= j < numbers.len() implies numbers[j] == (seq![
            taken[1],
            taken[2],
        ] + others@)[j] by {
            if j >= 2 {
                assert(numbers[(j - 2) + 2] == others[j - 2]);
            }
        }
    }
    assert(limits@ =~= assay_limits(numbers.len() as nat));
    let first = data_start(table, has_header);
    let rows = match read_rows(table, first, &texts, &numbers, &limits) {
        Ok(rows) => rows,
        Err(e) => {
            return Err(e);
        },
    };
    let ghost data = data_records(table@, has_header);
    let ghost grade_count = others.len();
    let mut intervals: Vec<AssayInterval> = Vec::new();
    let mut i: usize = 0;
    while i < rows.len()
        invariant
            i <= rows.len(),
            intervals.len() == i,
            rows.len() == data.len(),
            texts.len() == 1,
            numbers.len() == grade_count + 2,
            limits@ == assay_limits(numbers.len() as nat),
            forall|j: int|
                0 <= j < rows.len() ==> is_raw_row(
                    #[trigger] rows[j],
                    data[j],
                    texts@,
                    numbers@,
                    limits@,
                ),
            forall|j: int|
                0 <= j < i ==> is_assay(#[trigger] intervals[j], data[j], texts@, numbers@),
            forall|j: int| 0 <= j < i ==> (#[trigger] intervals[j]).wf(grade_count as int),
        decreases rows.len() - i,
    {
        let raw = &rows[i];
        let ghost row = data[i as int];
        assert(is_raw_row(*raw, row, texts@, numbers@, limits@));
        assert(texts[0] < row.len());
        let mut grades: Vec<i64> = Vec::new();
        let mut g: usize = 2;
        while g < raw.numbers.len()
            invariant
                2 <= g <= raw.numbers.len(),
                raw.numbers.len() == numbers.len(),
                grades.len() == g - 2,
                limits@ == assay_limits(numbers.len() as nat),
                is_raw_row(*raw, row, texts@, numbers@, limits@),
                forall|j: int|
                    0 <= j < g - 2 ==> number_at(row, numbers[j + 2] as int, GRADE_LIMIT as int)
                        == Some((#[trigger] grades[j]) as int),
                forall|j: int|
                    0 <= j < g - 2 ==> -GRADE_LIMIT <= (#[trigger] grades[j]) <= GRADE_LIMIT,
            decreases raw.numbers.len() - g,
        {
            let value = raw.numbers[g];
            proof {
                assert(number_at(row, numbers[g as int] as int, limits[g as int] as int) == Some(
                    raw.numbers[g as int] as int,
                ));
                lemma_parsed_within(row[numbers[g as int] as int], GRADE_LIMIT as int);
            }
            grades.push(value);
            g += 1;
        }
        proof {
            assert(number_at(row, numbers[0] as int, limits[0] as int) == Some(
                raw.numbers[0] as int,
            ));
            assert(number_at(row, numbers[1] as int, limits[1] as int) == Some(
                raw.numbers[1] as int,
            ));
            lemma_parsed_within(row[numbers[0] as int], DEPTH_LIMIT as int);
            lemma_parsed_within(row[numbers[1] as int], DEPTH_LIMIT as int);
        }
        let interval = AssayInterval {
            hole_id: copy_bytes(&raw.texts[0]),
            from: raw.numbers[0],
            to: raw.numbers[1],
            grades,
        };
        intervals.push(interval);
        i += 1;
    }
    Ok(AssayTable { attributes, intervals })
}

/// Reads the intervals of a lithology table: one for every data record,
/// from the columns `hole-id`, `from`, `to` and `rock`. The first fault
/// ends the reading, and no interval is returned.
pub fn lithology_from_table(table: &Table, has_header: bool) -> (r: Result<
    Vec<LithologyInterval>,
    EngineError,
>)
    ensures
        match lithology_plan(table@, has_header) {
            Err(e) => r == Err::<Vec<LithologyInterval>, EngineError>(e),
            Ok((texts, numbers)) => r matches Ok(intervals) && intervals.len() == data_records(
                table@,
                has_header,
            ).len() && forall|i: int|
                0 <= i < intervals.len() ==> is_lithology(
                    #[trigger] intervals[i],
                    data_records(table@, has_header)[i],
                    texts,
                    numbers,
                ),
        },
{
    let mut usual: Vec<Vec<u8>> = Vec::new();
    usual.push(hole_id_name());
    usual.push(from_name());
    usual.push(to_name());
    usual.push(rock_name());
    assert(header_view(usual@) =~= lithology_header());
    let mut text_names: Vec<Vec<u8>> = Vec::new();
    text_names.push(hole_id_name());
    text_names.push(rock_name());
    assert(header_view(text_names@) =~= seq![name_hole_id(), name_rock()]);
    let mut number_names: Vec<Vec<u8>> = Vec::new();
    number_names.push(from_name());
    number_names.push(to_name());
    assert(header_view(number_names@) =~= seq![name_from(), name_to()]);
    let mut limits: Vec<i64> = Vec::new();
    limits.push(DEPTH_LIMIT);
    limits.push(DEPTH_LIMIT);
    assert(limits@ =~= depth_limits());
    let rows = match read_named(table, has_header, &usual, &text_names, &number_names, &limits) {
        Ok(rows) => rows,
        Err(e) => {
            return Err(e);
        },
    };
    let ghost plan = lithology_plan(table@, has_header);
    let ghost texts = plan->Ok_0.0;
    let ghost numbers = plan->Ok_0.1;
    let ghost data = data_records(table@, has_header);
    let mut intervals: Vec<LithologyInterval> = Vec::new();
    let mut i: usize = 0;
    while i < rows.len()
        invariant
            i <= rows.len(),
            intervals.len() == i,
            rows.len() == data.len(),
            texts.len() == 2,
            numbers.len() == 2,
            forall|j: int|
                0 <= j < rows.len() ==> is_raw_row(
                    #[trigger] rows[j],
                    data[j],
                    texts,
                    numbers,
                    depth_limits(),
                ),
            forall|j: int|
                0 <= j < i ==> is_lithology(#[trigger] intervals[j], data[j], texts, numbers),
        decreases rows.len() - i,
    {
        let raw = &rows[i];
        assert(is_raw_row(*raw, data[i as int], texts, numbers, depth_limits()));
        assert(texts[0] < data[i as int].len());
        assert(texts[1] < data[i as int].len());
        let interval = LithologyInterval {
            hole_id: copy_bytes(&raw.texts[0]),
            from: raw.numbers[0],
            to: raw.numbers[1],
            rock: copy_bytes(&raw.texts[1]),
        };
        intervals.push(interval);
        i += 1;
    }
    Ok(intervals)
}

} // verus!
