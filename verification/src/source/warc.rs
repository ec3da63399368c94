//! The columns of WARC records.

use vstd::prelude::*;

use super::columns::{ColumnField, ColumnFieldView, ColumnType};
use crate::error::{Error, Result};
use crate::error_struct::at;
use crate::schema::{DataType, Field, Schema, TimeUnit};
use crate::storage::{OpendalStorage, S3StorageConfig};
use crate::text::{decimal, ends_with_ignoring_case};

verus! {

pub const DEFAULT_BATCH_SIZE: usize = 8192;

pub const BODY_COLUMN_INDEX: usize = 19;

pub const COLUMN_COUNT: usize = 20;

/// A column of WARC records.
pub open spec fn column_at(index: int) -> ColumnFieldView {
    let name = if index == 0 {
        "id"@
    } else if index == 1 {
        "content_length"@
    } else if index == 2 {
        "date"@
    } else if index == 3 {
        "type"@
    } else if index == 4 {
        "content_type"@
    } else if index == 5 {
        "concurrent_to"@
    } else if index == 6 {
        "block_digest"@
    } else if index == 7 {
        "payload_digest"@
    } else if index == 8 {
        "ip_address"@
    } else if index == 9 {
        "refers_to"@
    } else if index == 10 {
        "target_uri"@
    } else if index == 11 {
        "truncated"@
    } else if index == 12 {
        "warc_info_id"@
    } else if index == 13 {
        "filename"@
    } else if index == 14 {
        "profile"@
    } else if index == 15 {
        "identified_payload_type"@
    } else if index == 16 {
        "segment_number"@
    } else if index == 17 {
        "segment_origin_id"@
    } else if index == 18 {
        "segment_total_length"@
    } else {
        "body"@
    };
    let column_type = if index == 1 || index == 16 || index == 18 {
        ColumnType::UInt64
    } else if index == 2 {
        ColumnType::TimestampMillisecond
    } else if index == BODY_COLUMN_INDEX {
        ColumnType::BinaryView
    } else {
        ColumnType::Utf8
    };
    ColumnFieldView {
        name,
        column_type,
        nullable: 4 <= index < BODY_COLUMN_INDEX,
    }
}

/// A column of WARC records.
pub fn warc_column(index: usize) -> (field: ColumnField)
    requires
        index < COLUMN_COUNT,
    ensures
        field@ == column_at(index as int),
{
    let name = match index {
        0 => "id",
        1 => "content_length",
        2 => "date",
        3 => "type",
        4 => "content_type",
        5 => "concurrent_to",
        6 => "block_digest",
        7 => "payload_digest",
        8 => "ip_address",
        9 => "refers_to",
        10 => "target_uri",
        11 => "truncated",
        12 => "warc_info_id",
        13 => "filename",
        14 => "profile",
        15 => "identified_payload_type",
        16 => "segment_number",
        17 => "segment_origin_id",
        18 => "segment_total_length",
        _ => "body",
    };
    let column_type = match index {
        1 | 16 | 18 => ColumnType::UInt64,
        2 => ColumnType::TimestampMillisecond,
        BODY_COLUMN_INDEX => ColumnType::BinaryView,
        _ => ColumnType::Utf8,
    };
    ColumnField {
        name: name.to_owned(),
        column_type,
        nullable: 4 <= index && index < BODY_COLUMN_INDEX,
    }
}

/// The Arrow type of a column.
pub open spec fn data_type_of(column_type: ColumnType) -> DataType {
    match column_type {
        ColumnType::Utf8 => DataType::Utf8,
        ColumnType::UInt64 => DataType::UInt64,
        ColumnType::TimestampMillisecond => DataType::Timestamp(TimeUnit::Millisecond, None),
        ColumnType::BinaryView => DataType::BinaryView,
    }
}

/// What Arrow calls the type of a column.
pub open spec fn type_text_of(column_type: ColumnType) -> Seq<char> {
    match column_type {
        ColumnType::Utf8 => "Utf8"@,
        ColumnType::UInt64 => "UInt64"@,
        ColumnType::TimestampMillisecond => "Timestamp(ms)"@,
        ColumnType::BinaryView => "BinaryView"@,
    }
}

/// Whether a field of a schema describes a column.
pub open spec fn describes(field: Field, column: ColumnFieldView) -> bool {
    &&& field.name@ == column.name
    &&& field.data_type == data_type_of(column.column_type)
    &&& field.arrow_type@ == type_text_of(column.column_type)
    &&& field.nullable == column.nullable
}

/// The field of a schema for a column.
pub fn warc_field(index: usize) -> (field: Field)
    requires
        index < COLUMN_COUNT,
    ensures
        describes(field, column_at(index as int)),
{
    let column = warc_column(index);
    let (data_type, arrow_type) = match column.column_type {
        ColumnType::Utf8 => (DataType::Utf8, "Utf8"),
        ColumnType::UInt64 => (DataType::UInt64, "UInt64"),
        ColumnType::TimestampMillisecond => (
            DataType::Timestamp(TimeUnit::Millisecond, None),
            "Timestamp(ms)",
        ),
        ColumnType::BinaryView => (DataType::BinaryView, "BinaryView"),
    };
    Field::new(column.name.as_str(), data_type, arrow_type, column.nullable)
}

/// The schema of the columns at `projection`.
pub fn projected_schema(projection: &Vec<usize>) -> (schema: Schema)
    requires
        is_projection(projection@),
    ensures
        schema.fields@.len() == projection@.len(),
        forall|i: int|
            0 <= i < projection@.len() ==> describes(
                #[trigger] schema.fields@[i],
                column_at(projection@[i] as int),
            ),
{
    let mut fields: Vec<Field> = Vec::new();
    for i in 0..projection.len()
        invariant
            fields@.len() == i,
            is_projection(projection@),
            forall|j: int|
                0 <= j < i ==> describes(#[trigger] fields@[j], column_at(projection@[j] as int)),
    {
        fields.push(warc_field(projection[i]));
    }
    Schema::new(fields)
}

/// The schema of WARC records: all of their columns.
pub fn warc_schema() -> (schema: Schema)
    ensures
        schema.fields@.len() == COLUMN_COUNT,
        forall|i: int|
            0 <= i < COLUMN_COUNT ==> describes(#[trigger] schema.fields@[i], column_at(i)),
{
    projected_schema(&all_columns())
}

/// Whether a column occurs once only.
pub open spec fn no_column_twice(projection: Seq<usize>) -> bool {
    forall|i: int, j: int|
        0 <= i < j < projection.len() ==> #[trigger] projection[i] != #[trigger] projection[j]
}

/// A choice of columns: at least one, all of them known, none of them twice.
pub open spec fn is_projection(projection: Seq<usize>) -> bool {
    &&& projection.len() > 0
    &&& forall|i: int| 0 <= i < projection.len() ==> #[trigger] projection[i] < COLUMN_COUNT
    &&& no_column_twice(projection)
}

/// All columns, in order.
fn all_columns() -> (projection: Vec<usize>)
    ensures
        projection@ == Seq::new(COLUMN_COUNT as nat, |i: int| i as usize),
        is_projection(projection@),
{
    let mut projection: Vec<usize> = Vec::new();
    for i in 0..COLUMN_COUNT
        invariant
            projection@ == Seq::new(i as nat, |j: int| j as usize),
    {
        projection.push(i);
    }
    projection
}

/// What is wrong with a choice of columns, if anything: the first index that is
/// out of range or that came before.
pub open spec fn projection_problem(projection: Seq<usize>) -> Option<Seq<char>>
    decreases projection.len(),
{
    if projection.len() == 0 {
        None
    } else {
        let index = projection.last();
        match projection_problem(projection.drop_last()) {
            Some(message) => Some(message),
            None => if index >= COLUMN_COUNT {
                Some(
                    "invalid WARC column index: "@ + crate::text::decimal_text(index as nat),
                )
            } else if projection.drop_last().contains(index) {
                Some(
                    "duplicate WARC column index: "@ + crate::text::decimal_text(index as nat),
                )
            } else {
                None
            },
        }
    }
}

/// A choice of columns as mathematical values.
pub open spec fn projection_view(projection: Option<Vec<usize>>) -> Option<Seq<usize>> {
    match projection {
        Some(projection) => Some(projection@),
        None => None,
    }
}

/// The columns that were asked for: all of them where none were named.
pub open spec fn requested_columns(projection: Option<Seq<usize>>) -> Seq<usize> {
    match projection {
        Some(projection) => if projection.len() == 0 {
            Seq::new(COLUMN_COUNT as nat, |i: int| i as usize)
        } else {
            projection
        },
        None => Seq::new(COLUMN_COUNT as nat, |i: int| i as usize),
    }
}

proof fn lemma_problem_stays(projection: Seq<usize>, end: int)
    requires
        0 <= end <= projection.len(),
        projection_problem(projection.take(end)) is Some,
    ensures
        projection_problem(projection) == projection_problem(projection.take(end)),
    decreases projection.len() - end,
{
    if end < projection.len() {
        assert(projection.take(end + 1).drop_last() == projection.take(end));
        lemma_problem_stays(projection, end + 1);
    } else {
        assert(projection.take(end) == projection);
    }
}

/// Resolves a choice of columns.
pub fn resolve_projection(projection: Option<Vec<usize>>) -> (resolved: Result<Vec<usize>>)
    ensures
        match resolved {
            Ok(resolved) => {
                &&& resolved@ == requested_columns(projection_view(projection))
                &&& projection_problem(resolved@) is None
                &&& is_projection(resolved@)
            },
            Err(error) => projection_problem(
                requested_columns(projection_view(projection)),
            ) matches Some(message) && error@ == crate::error::internal_error(message),
        },
{
    let columns = match projection {
        Some(projection) => if projection.len() == 0 {
            all_columns()
        } else {
            projection
        },
        None => all_columns(),
    };
    let mut seen: Vec<bool> = Vec::new();
    for i in 0..COLUMN_COUNT
        invariant
            seen@ == Seq::new(i as nat, |j: int| false),
    {
        seen.push(false);
    }
    let mut i: usize = 0;
    assert(columns@.take(0) =~= Seq::empty());
    while i < columns.len()
        invariant
            i <= columns@.len(),
            columns@ == requested_columns(projection_view(projection)),
            seen@.len() == COLUMN_COUNT,
            projection_problem(columns@.take(i as int)) is None,
            forall|j: int| 0 <= j < i ==> #[trigger] columns@[j] < COLUMN_COUNT,
            forall|k: int|
                0 <= k < COLUMN_COUNT ==> (#[trigger] seen@[k] <==> columns@.take(
                    i as int,
                ).contains(k as usize)),
            no_column_twice(columns@.take(i as int)),
        decreases columns@.len() - i,
    {
        let index = columns[i];
        let ghost before = columns@.take(i as int);
        let ghost after = columns@.take(i + 1);
        assert(after.drop_last() == before);
        assert(after == before.push(index));
        if index >= COLUMN_COUNT {
            proof {
                lemma_problem_stays(columns@, i + 1);
            }
            let mut message = "invalid WARC column index: ".to_owned();
            message.append(decimal(index as u128).as_str());
            return Err(Error::message(message, at("src/source/warc.rs", 351, 24)));
        }
        if seen[index] {
            proof {
                assert(before.contains(index));
                lemma_problem_stays(columns@, i + 1);
            }
            let mut message = "duplicate WARC column index: ".to_owned();
            message.append(decimal(index as u128).as_str());
            return Err(Error::message(message, at("src/source/warc.rs", 360, 24)));
        }
        seen.set(index, true);
        proof {
            assert(!before.contains(index));
            assert forall|j: int, k: int| 0 <= j < k < after.len() implies #[trigger] after[j]
                != #[trigger] after[k] by {
                if k == i {
                    assert(before[j] == after[j]);
                    assert(before.contains(before[j]));
                } else {
                    assert(before[j] == after[j] && before[k] == after[k]);
                }
            }
            assert forall|k: int| 0 <= k < COLUMN_COUNT implies (#[trigger] seen@[k]
                <==> after.contains(k as usize)) by {
                if before.contains(k as usize) {
                    let j = choose|j: int| 0 <= j < before.len() && before[j] == k as usize;
                    assert(after[j] == k as usize);
                }
                if k == index {
                    assert(after[i as int] == k as usize);
                }
                if after.contains(k as usize) && k != index {
                    let j = choose|j: int| 0 <= j < after.len() && after[j] == k as usize;
                    assert(before[j] == k as usize);
                }
            }
        }
        i += 1;
    }
    assert(columns@.take(i as int) == columns@);
    Ok(columns)
}

/// A WARC archive, and how to read it.
#[derive(Debug)]
pub struct WarcSource {
    pub path: String,
    pub batch_size: usize,
    pub s3_config: Option<S3StorageConfig>,
    pub projection: Option<Vec<usize>>,
    pub index_path: Option<String>,
    pub max_read_parallelism: usize,
}

/// An archive and how to read it, as mathematical values.
pub struct WarcSourceView {
    pub path: Seq<char>,
    pub batch_size: usize,
    pub s3_config: Option<crate::storage::S3StorageConfigView>,
    pub projection: Option<Seq<usize>>,
    pub index_path: Option<Seq<char>>,
    pub max_read_parallelism: usize,
}

impl View for WarcSource {
    type V = WarcSourceView;

    open spec fn view(&self) -> WarcSourceView {
        WarcSourceView {
            path: self.path@,
            batch_size: self.batch_size,
            s3_config: match self.s3_config {
                Some(config) => Some(config@),
                None => None,
            },
            projection: projection_view(self.projection),
            index_path: crate::error_struct::optional_text(self.index_path),
            max_read_parallelism: self.max_read_parallelism,
        }
    }
}

impl WarcSource {
    pub fn new(path: String) -> (source: Self)
        ensures
            source@ == (WarcSourceView {
                path: path@,
                batch_size: DEFAULT_BATCH_SIZE,
                s3_config: None,
                projection: None,
                index_path: None,
                max_read_parallelism: super::DEFAULT_MAX_READ_PARALLELISM,
            }),
    {
        WarcSource {
            path,
            batch_size: DEFAULT_BATCH_SIZE,
            s3_config: None,
            projection: None,
            index_path: None,
            max_read_parallelism: super::DEFAULT_MAX_READ_PARALLELISM,
        }
    }

    pub fn with_batch_size(self, batch_size: usize) -> (source: Self)
        ensures
            source@ == (WarcSourceView { batch_size, ..self@ }),
    {
        let mut source = self;
        source.batch_size = batch_size;
        source
    }

    pub fn with_s3_config(self, config: S3StorageConfig) -> (source: Self)
        ensures
            source@ == (WarcSourceView { s3_config: Some(config@), ..self@ }),
    {
        let mut source = self;
        source.s3_config = Some(config);
        source
    }

    /// Chooses columns by their indexes. All columns are read where none are
    /// named.
    pub fn with_projection(self, projection: Vec<usize>) -> (source: Self)
        ensures
            source.projection == Some(projection),
            source@ == (WarcSourceView { projection: Some(projection@), ..self@ }),
    {
        let mut source = self;
        source.projection = Some(projection);
        source
    }

    /// Reads the archive through the index at `index_path`.
    pub fn with_index_path(self, index_path: String) -> (source: Self)
        ensures
            source@ == (WarcSourceView { index_path: Some(index_path@), ..self@ }),
    {
        let mut source = self;
        source.index_path = Some(index_path);
        source
    }

    /// Limits how many ranges of an indexed archive are read at once.
    pub fn with_max_read_parallelism(self, max_read_parallelism: usize) -> (source: Self)
        ensures
            source@ == (WarcSourceView { max_read_parallelism, ..self@ }),
    {
        let mut source = self;
        source.max_read_parallelism = max_read_parallelism;
        source
    }

    /// Checks the source, and gives the columns to read.
    pub fn columns(&self) -> (columns: Result<Vec<usize>>)
        ensures
            match columns {
                Ok(columns) => {
                    &&& columns_problem(self@) is None
                    &&& columns@ == requested_columns(self@.projection)
                    &&& is_projection(columns@)
                },
                Err(error) => columns_problem(self@) matches Some(message) && error@
                    == crate::error::internal_error(message),
            },
    {
        if self.batch_size == 0 {
            return Err(Error::message(
                "batch_size must be positive".to_owned(),
                at("src/source/warc.rs", 520, 24),
            ));
        }
        let projection = match &self.projection {
            Some(projection) => {
                let projection = projection.clone();
                assert(projection@ =~= self.projection->0@);
                Some(projection)
            },
            None => None,
        };
        resolve_projection(projection)
    }

    /// Decides how the archive is read. `absolute` and `index_absolute` are the
    /// local paths of the archive and of its index made absolute.
    pub fn plan(&self, absolute: &str, index_absolute: &str) -> (plan: Result<WarcPlan>)
        ensures
            match columns_problem(self@) {
                Some(message) => plan matches Err(error) && error@
                    == crate::error::internal_error(message),
                None => exists|
                    storage: crate::storage::StorageOutcome,
                    index: crate::storage::StorageOutcome,
                |
                    #![trigger planned(self@, storage, index)]
                    is_archive_outcome(storage, self@, absolute@) && is_index_outcome(
                        index,
                        self@,
                        index_absolute@,
                    ) && plan_outcome(plan) == planned(self@, storage, index),
            },
    {
        let projection = match self.columns() {
            Ok(projection) => projection,
            Err(error) => {
                return Err(error);
            },
        };
        let s3_config = match &self.s3_config {
            Some(config) => Some(config),
            None => None,
        };
        let storage = OpendalStorage::from_path(self.path.as_str(), absolute, s3_config);
        let ghost archive = crate::storage::outcome_view(storage);
        assert(is_archive_outcome(archive, self@, absolute@));
        let (storage, gzipped) = match check_object(storage, "WARC input must not be a storage root") {
            Ok(checked) => checked,
            Err(error) => {
                proof {
                    let index = lemma_some_index_outcome(self@, index_absolute@);
                    assert(planned(self@, archive, index) is Err);
                }
                return Err(error);
            },
        };
        match &self.index_path {
            None => {
                let plan = WarcPlan { projection, storage, gzipped, index: None };
                proof {
                    let index = lemma_some_index_outcome(self@, index_absolute@);
                    assert(plan_outcome(Ok(plan)) == planned(self@, archive, index));
                }
                Ok(plan)
            },
            Some(index_path) => {
                let index = OpendalStorage::from_path(
                    index_path.as_str(),
                    index_absolute,
                    s3_config,
                );
                let ghost index_view = crate::storage::outcome_view(index);
                assert(is_index_outcome(index_view, self@, index_absolute@));
                match check_object(index, "WARC index must not be a storage root") {
                    Ok((index_storage, index_gzipped)) => {
                        let plan = WarcPlan {
                            projection,
                            storage,
                            gzipped,
                            index: Some((index_storage, index_gzipped)),
                        };
                        assert(plan_outcome(Ok(plan)) == planned(self@, archive, index_view));
                        Ok(plan)
                    },
                    Err(error) => {
                        assert(planned(self@, archive, index_view) is Err);
                        Err(error)
                    },
                }
            },
        }
    }
}

/// Why a source has no columns to read, if it has none.
pub open spec fn columns_problem(source: WarcSourceView) -> Option<Seq<char>> {
    if source.batch_size == 0 {
        Some("batch_size must be positive"@)
    } else {
        projection_problem(requested_columns(source.projection))
    }
}

/// How an archive is read: its columns, where it is and whether it is gzipped,
/// and the same of its index.
#[derive(Debug)]
pub struct WarcPlan {
    pub projection: Vec<usize>,
    pub storage: OpendalStorage,
    pub gzipped: bool,
    pub index: Option<(OpendalStorage, bool)>,
}

/// How an archive is read, as mathematical values.
pub struct WarcPlanView {
    pub projection: Seq<usize>,
    pub storage: crate::storage::OpendalStorageView,
    pub gzipped: bool,
    pub index: Option<(crate::storage::OpendalStorageView, bool)>,
}

impl View for WarcPlan {
    type V = WarcPlanView;

    open spec fn view(&self) -> WarcPlanView {
        WarcPlanView {
            projection: self.projection@,
            storage: self.storage@,
            gzipped: self.gzipped,
            index: match self.index {
                Some((storage, gzipped)) => Some((storage@, gzipped)),
                None => None,
            },
        }
    }
}

/// A plan, or the error for it.
pub type PlanOutcome = std::result::Result<WarcPlanView, crate::error::ErrorView>;

/// A result as mathematical values.
pub open spec fn plan_outcome(result: Result<WarcPlan>) -> PlanOutcome {
    match result {
        Ok(plan) => Ok(plan@),
        Err(error) => Err(error@),
    }
}

/// Whether an outcome is the storage of an archive.
pub open spec fn is_archive_outcome(
    outcome: crate::storage::StorageOutcome,
    source: WarcSourceView,
    absolute: Seq<char>,
) -> bool {
    crate::storage::is_path_outcome(outcome, source.path, absolute, source.s3_config)
}

/// Whether an outcome is the storage of the index of an archive, where it has
/// one.
pub open spec fn is_index_outcome(
    outcome: crate::storage::StorageOutcome,
    source: WarcSourceView,
    absolute: Seq<char>,
) -> bool {
    match source.index_path {
        Some(path) => crate::storage::is_path_outcome(outcome, path, absolute, source.s3_config),
        None => true,
    }
}

/// Whether an object is gzipped, by its name.
pub open spec fn names_gzip(object_path: Seq<char>) -> bool {
    crate::text::has_suffix_ignoring_case(object_path, ".gz"@)
}

/// An object in storage that can be read, and whether it is gzipped.
pub open spec fn object_in(
    storage: crate::storage::StorageOutcome,
    root_message: Seq<char>,
) -> std::result::Result<(crate::storage::OpendalStorageView, bool), crate::error::ErrorView> {
    match storage {
        Err(error) => Err(error),
        Ok(storage) => if storage.object_path.len() == 0 {
            Err(crate::error::internal_error(root_message))
        } else {
            Ok((storage, names_gzip(storage.object_path)))
        },
    }
}

/// How an archive is read, given its storage and that of its index.
pub open spec fn planned(
    source: WarcSourceView,
    storage: crate::storage::StorageOutcome,
    index: crate::storage::StorageOutcome,
) -> PlanOutcome {
    match object_in(storage, "WARC input must not be a storage root"@) {
        Err(error) => Err(error),
        Ok((storage, gzipped)) => match source.index_path {
            None => Ok(
                WarcPlanView {
                    projection: requested_columns(source.projection),
                    storage,
                    gzipped,
                    index: None,
                },
            ),
            Some(_) => match object_in(index, "WARC index must not be a storage root"@) {
                Err(error) => Err(error),
                Ok(index) => Ok(
                    WarcPlanView {
                        projection: requested_columns(source.projection),
                        storage,
                        gzipped,
                        index: Some(index),
                    },
                ),
            },
        },
    }
}

/// Checks that storage holds an object, and tells whether it is gzipped.
pub fn check_object(storage: Result<OpendalStorage>, root_message: &str) -> (checked: Result<
    (OpendalStorage, bool),
>)
    ensures
        match checked {
            Ok((checked, gzipped)) => object_in(
                crate::storage::outcome_view(storage),
                root_message@,
            ) == Ok::<(crate::storage::OpendalStorageView, bool), crate::error::ErrorView>(
                (checked@, gzipped),
            ),
            Err(error) => object_in(crate::storage::outcome_view(storage), root_message@) == Err::<
                (crate::storage::OpendalStorageView, bool),
                crate::error::ErrorView,
            >(error@),
        },
{
    match storage {
        Err(error) => Err(error),
        Ok(storage) => {
            if storage.is_root() {
                return Err(Error::message(
                    root_message.to_owned(),
                    at("src/source/warc.rs", 766, 28),
                ));
            }
            let gzipped = ends_with_ignoring_case(storage.object_path.as_str(), ".gz");
            Ok((storage, gzipped))
        },
    }
}

proof fn lemma_some_index_outcome(source: WarcSourceView, absolute: Seq<char>) -> (outcome:
    crate::storage::StorageOutcome)
    ensures
        is_index_outcome(outcome, source, absolute),
{
    match source.index_path {
        None => crate::storage::StorageOutcome::Err(crate::error::internal_error(absolute)),
        Some(path) => {
            if crate::text::has_prefix_ignoring_case(path, "s3://"@) {
                match source.s3_config {
                    Some(config) => crate::storage::s3_outcome(path, config),
                    None => crate::storage::StorageOutcome::Err(
                        crate::error::internal_error("S3 path requires S3 storage configuration"@),
                    ),
                }
            } else {
                match source.s3_config {
                    Some(_) => crate::storage::StorageOutcome::Err(
                        crate::error::internal_error(
                            "S3 storage configuration can only be used with an s3:// path"@,
                        ),
                    ),
                    None => crate::storage::StorageOutcome::Err(
                        crate::error::internal_error("invalid local storage path: "@ + absolute),
                    ),
                }
            }
        },
    }
}

}
