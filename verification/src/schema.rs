//! Column type labels and the `--schema` output (text lines and the JSON
//! document's content).

use vstd::prelude::*;
use crate::parquet_types::{ConvertedType, LogicalType, PhysicalType, Repetition, TimeUnit,
    spec_bool_text, spec_converted_name, spec_logical_debug, spec_physical_name};
use crate::text::{contains_str, dec_int, fmt_i64, join, join_push, lemma_strs_push, strs};

verus! {

/// What the library reads of a leaf column of a Parquet schema.
#[derive(Debug)]
pub struct ColumnInfo {
    pub name: String,
    pub physical_type: PhysicalType,
    pub logical_type: Option<LogicalType>,
    pub converted_type: ConvertedType,
    /// The column's repetition, when its schema node has one.
    pub repetition: Option<Repetition>,
}

/// Label of a logical type other than `Unknown`.
pub open spec fn spec_logical_label(l: LogicalType) -> Seq<char> {
    match l {
        LogicalType::String => "STRING"@,
        LogicalType::Date => "DATE"@,
        LogicalType::Timestamp { unit, .. } => match unit {
            TimeUnit::MILLIS => "TIMESTAMP_MILLIS"@,
            TimeUnit::MICROS => "TIMESTAMP_MICROS"@,
            TimeUnit::NANOS => "TIMESTAMP_NANOS"@,
        },
        LogicalType::Integer { bit_width, is_signed } => "INT("@ + dec_int(bit_width as int)
            + ", "@ + spec_bool_text(is_signed) + ")"@,
        LogicalType::Decimal { scale, precision } => "DECIMAL("@ + dec_int(precision as int) + ","@
            + dec_int(scale as int) + ")"@,
        LogicalType::List => "LIST"@,
        LogicalType::Mapping => "MAP"@,
        LogicalType::Enum => "ENUM"@,
        LogicalType::Json => "JSON"@,
        LogicalType::Bson => "BSON"@,
        LogicalType::Uuid => "UUID"@,
        _ => spec_logical_debug(l),
    }
}

/// The logical label of a column: its logical type when it has one other than
/// `Unknown`, else its converted type when that is not `NONE`, else none.
pub open spec fn spec_logical_type_str(lt: Option<LogicalType>, ct: ConvertedType) -> Option<
    Seq<char>,
> {
    if lt is Some && lt->0 != LogicalType::Unknown {
        Some(spec_logical_label(lt->0))
    } else if ct != ConvertedType::NONE {
        Some(spec_converted_name(ct))
    } else {
        None
    }
}

/// The type text of a column: physical type, then the logical label if any.
pub open spec fn spec_field_type(col: ColumnInfo) -> Seq<char> {
    match spec_logical_type_str(col.logical_type, col.converted_type) {
        Some(l) => spec_physical_name(col.physical_type) + " "@ + l,
        None => spec_physical_name(col.physical_type),
    }
}

fn logical_label(l: LogicalType) -> (s: String)
    requires
        l != LogicalType::Unknown,
    ensures
        s@ == spec_logical_label(l),
{
    match l {
        LogicalType::String => String::from_str("STRING"),
        LogicalType::Date => String::from_str("DATE"),
        LogicalType::Timestamp { unit, .. } => match unit {
            TimeUnit::MILLIS => String::from_str("TIMESTAMP_MILLIS"),
            TimeUnit::MICROS => String::from_str("TIMESTAMP_MICROS"),
            TimeUnit::NANOS => String::from_str("TIMESTAMP_NANOS"),
        },
        LogicalType::Integer { bit_width, is_signed } => {
            let mut s = String::from_str("INT(");
            s.append(fmt_i64(bit_width as i64).as_str());
            s.append(", ");
            s.append(if is_signed {
                "true"
            } else {
                "false"
            });
            s.append(")");
            s
        },
        LogicalType::Decimal { scale, precision } => {
            let mut s = String::from_str("DECIMAL(");
            s.append(fmt_i64(precision as i64).as_str());
            s.append(",");
            s.append(fmt_i64(scale as i64).as_str());
            s.append(")");
            s
        },
        LogicalType::List => String::from_str("LIST"),
        LogicalType::Mapping => String::from_str("MAP"),
        LogicalType::Enum => String::from_str("ENUM"),
        LogicalType::Json => String::from_str("JSON"),
        LogicalType::Bson => String::from_str("BSON"),
        LogicalType::Uuid => String::from_str("UUID"),
        _ => l.debug_name(),
    }
}

/// The logical label of a column (see [`spec_logical_type_str`]).
pub fn get_logical_type_str(col: &ColumnInfo) -> (r: Option<String>)
    ensures
        match r {
            Some(s) => spec_logical_type_str(col.logical_type, col.converted_type) == Some(s@),
            None => spec_logical_type_str(col.logical_type, col.converted_type) is None,
        },
{
    match col.logical_type {
        Some(LogicalType::Unknown) => {},
        Some(l) => {
            return Some(logical_label(l));
        },
        None => {},
    }
    match col.converted_type {
        ConvertedType::NONE => None,
        ct => Some(ct.debug_name()),
    }
}

/// The type text of a column: `INT64` or `INT64 TIMESTAMP_MICROS`.
pub fn format_field_type(col: &ColumnInfo) -> (s: String)
    ensures
        s@ == spec_field_type(*col),
{
    let mut s = col.physical_type.debug_name();
    match get_logical_type_str(col) {
        Some(lt) => {
            s.append(" ");
            s.append(lt.as_str());
        },
        None => {},
    }
    s
}

/// Whether a column is shown under an optional `--columns` list: every column
/// when there is no list, else only the listed ones.
pub open spec fn column_selected(filter: Option<Vec<String>>, name: Seq<char>) -> bool {
    match filter {
        None => true,
        Some(cols) => strs(cols@).contains(name),
    }
}

/// Whether the column `name` is shown under `filter` (see [`column_selected`]).
pub fn is_selected(filter: &Option<Vec<String>>, name: &str) -> (b: bool)
    ensures
        b == column_selected(*filter, name@),
{
    match filter {
        None => true,
        Some(cols) => contains_str(cols, name),
    }
}

/// The `--schema` text line of a column: its name, then its type text.
pub open spec fn spec_schema_line(col: ColumnInfo) -> Seq<char> {
    col.name@ + " "@ + spec_field_type(col)
}

/// The `--schema` text lines of the selected columns, in schema order.
pub open spec fn spec_schema_lines(cols: Seq<ColumnInfo>, filter: Option<Vec<String>>) -> Seq<
    Seq<char>,
>
    decreases cols.len(),
{
    if cols.len() == 0 {
        Seq::empty()
    } else {
        let prev = spec_schema_lines(cols.drop_last(), filter);
        if column_selected(filter, cols.last().name@) {
            prev.push(spec_schema_line(cols.last()))
        } else {
            prev
        }
    }
}

/// The lines of `--schema` (text): one per selected column, in schema order,
/// whatever the order of the `--columns` list.
pub fn emit_text(cols: &Vec<ColumnInfo>, filter: &Option<Vec<String>>) -> (lines: Vec<
    String,
>)
    ensures
        strs(lines@) == spec_schema_lines(cols@, *filter),
{
    let mut lines: Vec<String> = Vec::new();
    let mut i: usize = 0;
    while i < cols.len()
        invariant
            0 <= i <= cols.len(),
            strs(lines@) == spec_schema_lines(cols@.take(i as int), *filter),
        decreases cols.len() - i,
    {
        assert(cols@.take(i + 1).drop_last() =~= cols@.take(i as int));
        let col = &cols[i];
        if is_selected(filter, col.name.as_str()) {
            let mut line = col.name.clone();
            line.append(" ");
            let t = format_field_type(col);
            line.append(t.as_str());
            proof {
                lemma_strs_push(lines@, line);
            }
            lines.push(line);
        }
        i = i + 1;
    }
    assert(cols@.take(cols.len() as int) =~= cols@);
    lines
}

/// The names of the columns, in schema order.
pub open spec fn spec_column_names(cols: Seq<ColumnInfo>) -> Seq<Seq<char>> {
    cols.map_values(|c: ColumnInfo| c.name@)
}

/// The names of the columns, in schema order.
pub fn column_names(cols: &Vec<ColumnInfo>) -> (names: Vec<String>)
    ensures
        strs(names@) == spec_column_names(cols@),
{
    let mut names: Vec<String> = Vec::new();
    let mut i: usize = 0;
    while i < cols.len()
        invariant
            0 <= i <= cols.len(),
            strs(names@) == spec_column_names(cols@.take(i as int)),
        decreases cols.len() - i,
    {
        proof {
            lemma_strs_push(names@, cols@[i as int].name);
        }
        names.push(cols[i].name.clone());
        assert(spec_column_names(cols@.take(i + 1)) =~= spec_column_names(cols@.take(i as int)).push(
            cols@[i as int].name@,
        ));
        i = i + 1;
    }
    assert(cols@.take(cols.len() as int) =~= cols@);
    names
}

/// The stderr line for an unknown `--columns` name.
pub open spec fn spec_unknown_column_line(name: Seq<char>, valid: Seq<Seq<char>>) -> Seq<char> {
    "error: unknown column: \""@ + name + "\"; valid columns: "@ + join(valid, ", "@)
}

/// Checks a `--columns` list against the column names of the schema. `None`
/// when every requested name is a column; otherwise the error line for the
/// first requested name that is not.
pub fn unknown_column_error(valid: &Vec<String>, requested: &Vec<String>) -> (r: Option<String>)
    ensures
        match r {
            None => forall|k: int| 0 <= k < requested.len() ==> strs(valid@).contains(
                #[trigger] requested@[k]@,
            ),
            Some(line) => exists|k: int|
                0 <= k < requested.len() && !strs(valid@).contains(#[trigger] requested@[k]@) && (
                forall|j: int| 0 <= j < k ==> strs(valid@).contains(#[trigger] requested@[j]@))
                    && line@ == spec_unknown_column_line(requested@[k]@, strs(valid@)),
        },
{
    let mut k: usize = 0;
    while k < requested.len()
        invariant
            0 <= k <= requested.len(),
            forall|j: int| 0 <= j < k ==> strs(valid@).contains(#[trigger] requested@[j]@),
        decreases requested.len() - k,
    {
        if !contains_str(valid, requested[k].as_str()) {
            let mut line = String::from_str("error: unknown column: \"");
            line.append(requested[k].as_str());
            line.append("\"; valid columns: ");
            let mut joined = String::new();
            let mut i: usize = 0;
            while i < valid.len()
                invariant
                    0 <= i <= valid.len(),
                    joined@ == join(strs(valid@).take(i as int), ", "@),
                decreases valid.len() - i,
            {
                join_push(&mut joined, i, valid[i].as_str(), ", ", Ghost(strs(valid@)));
                i = i + 1;
            }
            assert(strs(valid@).take(valid.len() as int) =~= strs(valid@));
            line.append(joined.as_str());
            return Some(line);
        }
        k = k + 1;
    }
    None
}

/// One entry of the `fields` list of the JSON schema document.
#[derive(Debug)]
pub struct FieldJson {
    /// The column's index in the schema (not renumbered by a `--columns` filter).
    pub index: usize,
    pub name: String,
    pub physical_type: String,
    pub logical_type: Option<String>,
    pub repetition: String,
}

/// The JSON schema document of `--schema --json`.
#[derive(Debug)]
pub struct SchemaJson {
    pub file: String,
    pub num_rows: i64,
    pub num_row_groups: usize,
    pub created_by: Option<String>,
    pub fields: Vec<FieldJson>,
}

/// The repetition label of a column; a node without one counts as `REQUIRED`.
pub open spec fn spec_repetition_label(r: Option<Repetition>) -> Seq<char> {
    match r {
        Some(Repetition::OPTIONAL) => "OPTIONAL"@,
        Some(Repetition::REPEATED) => "REPEATED"@,
        _ => "REQUIRED"@,
    }
}

/// A field entry as plain values: index, name, physical type, logical label,
/// repetition.
pub open spec fn field_view(f: FieldJson) -> (nat, Seq<char>, Seq<char>, Option<Seq<char>>, Seq<
    char,
>) {
    (
        f.index as nat,
        f.name@,
        f.physical_type@,
        match f.logical_type {
            Some(l) => Some(l@),
            None => None,
        },
        f.repetition@,
    )
}

/// The entry of the column at `index`.
pub open spec fn spec_field_entry(index: nat, col: ColumnInfo) -> (nat, Seq<char>, Seq<char>, Option<
    Seq<char>,
>, Seq<char>) {
    (
        index,
        col.name@,
        spec_physical_name(col.physical_type),
        spec_logical_type_str(col.logical_type, col.converted_type),
        spec_repetition_label(col.repetition),
    )
}

/// The entries of the selected columns, in schema order, each with its index
/// in the whole schema.
pub open spec fn spec_field_entries(cols: Seq<ColumnInfo>, filter: Option<Vec<String>>) -> Seq<
    (nat, Seq<char>, Seq<char>, Option<Seq<char>>, Seq<char>),
>
    decreases cols.len(),
{
    if cols.len() == 0 {
        Seq::empty()
    } else {
        let prev = spec_field_entries(cols.drop_last(), filter);
        if column_selected(filter, cols.last().name@) {
            prev.push(spec_field_entry((cols.len() - 1) as nat, cols.last()))
        } else {
            prev
        }
    }
}

fn repetition_label(r: Option<Repetition>) -> (s: String)
    ensures
        s@ == spec_repetition_label(r),
{
    match r {
        Some(Repetition::OPTIONAL) => String::from_str("OPTIONAL"),
        Some(Repetition::REPEATED) => String::from_str("REPEATED"),
        _ => String::from_str("REQUIRED"),
    }
}

/// The field entries of `--schema --json`: the selected columns, in schema
/// order, each keeping its index in the whole schema.
pub fn schema_fields(cols: &Vec<ColumnInfo>, filter: &Option<Vec<String>>) -> (fields: Vec<
    FieldJson,
>)
    ensures
        fields@.map_values(|f: FieldJson| field_view(f)) == spec_field_entries(cols@, *filter),
{
    let mut fields: Vec<FieldJson> = Vec::new();
    let mut i: usize = 0;
    while i < cols.len()
        invariant
            0 <= i <= cols.len(),
            fields@.map_values(|f: FieldJson| field_view(f)) == spec_field_entries(
                cols@.take(i as int),
                *filter,
            ),
        decreases cols.len() - i,
    {
        assert(cols@.take(i + 1).drop_last() =~= cols@.take(i as int));
        let col = &cols[i];
        if is_selected(filter, col.name.as_str()) {
            let entry = FieldJson {
                index: i,
                name: col.name.clone(),
                physical_type: col.physical_type.debug_name(),
                logical_type: get_logical_type_str(col),
                repetition: repetition_label(col.repetition),
            };
            let ghost before = fields@;
            fields.push(entry);
            assert(fields@.map_values(|f: FieldJson| field_view(f)) =~= before.map_values(
                |f: FieldJson| field_view(f),
            ).push(field_view(entry)));
        }
        i = i + 1;
    }
    assert(cols@.take(cols.len() as int) =~= cols@);
    fields
}

/// The JSON schema document for a file: where it is, its row and row group
/// counts, its writer, and the entries of the selected columns.
pub fn emit_json(
    file: String,
    num_rows: i64,
    num_row_groups: usize,
    created_by: Option<String>,
    cols: &Vec<ColumnInfo>,
    filter: &Option<Vec<String>>,
) -> (doc: SchemaJson)
    ensures
        doc.file == file,
        doc.num_rows == num_rows,
        doc.num_row_groups == num_row_groups,
        doc.created_by == created_by,
        doc.fields@.map_values(|f: FieldJson| field_view(f)) == spec_field_entries(cols@, *filter),
{
    SchemaJson { file, num_rows, num_row_groups, created_by, fields: schema_fields(cols, filter) }
}

/// `--schema --columns` keeps the schema's order and indices: each entry is
/// the column at its index, the indices ascend whatever the order of the
/// `--columns` list, and every selected column has an entry.
pub proof fn law_schema_fields_follow_schema_order(cols: Seq<ColumnInfo>, filter: Option<Vec<String>>)
    ensures
        forall|k: int|
            0 <= k < spec_field_entries(cols, filter).len() ==> {
                let e = #[trigger] spec_field_entries(cols, filter)[k];
                &&& e.0 < cols.len()
                &&& e == spec_field_entry(e.0, cols[e.0 as int])
                &&& column_selected(filter, cols[e.0 as int].name@)
            },
        forall|a: int, b: int|
            0 <= a < b < spec_field_entries(cols, filter).len() ==> (#[trigger] spec_field_entries(
                cols,
                filter,
            )[a]).0 < (#[trigger] spec_field_entries(cols, filter)[b]).0,
        forall|i: int|
            0 <= i < cols.len() && column_selected(filter, #[trigger] cols[i].name@) ==> exists|k: int|
                0 <= k < spec_field_entries(cols, filter).len() && (#[trigger] spec_field_entries(
                    cols,
                    filter,
                )[k]).0 == i,
    decreases cols.len(),
{
    if cols.len() > 0 {
        let front = cols.drop_last();
        law_schema_fields_follow_schema_order(front, filter);
        let prev = spec_field_entries(front, filter);
        let all = spec_field_entries(cols, filter);
        assert forall|k: int| 0 <= k < prev.len() implies (#[trigger] prev[k]).0 < front.len() by {}
        assert forall|k: int| 0 <= k < all.len() implies {
            let e = #[trigger] all[k];
            &&& e.0 < cols.len()
            &&& e == spec_field_entry(e.0, cols[e.0 as int])
            &&& column_selected(filter, cols[e.0 as int].name@)
        } by {
            if k < prev.len() {
                assert(all[k] == prev[k]);
                assert(cols[prev[k].0 as int] == front[prev[k].0 as int]);
            }
        }
        assert forall|a: int, b: int| 0 <= a < b < all.len() implies (#[trigger] all[a]).0 < (
        #[trigger] all[b]).0 by {
            if b < prev.len() {
                assert(all[a] == prev[a] && all[b] == prev[b]);
            } else {
                assert(all[a] == prev[a]);
                assert(prev[a].0 < front.len());
            }
        }
        assert forall|i: int| 0 <= i < cols.len() && column_selected(filter, #[trigger] cols[i].name@) implies exists|k: int|
            0 <= k < all.len() && (#[trigger] all[k]).0 == i by {
            if i < front.len() {
                assert(front[i] == cols[i]);
                assert(column_selected(filter, front[i].name@));
                let k = choose|k: int| 0 <= k < prev.len() && (#[trigger] prev[k]).0 == i;
                assert(all[k] == prev[k]);
            } else {
                assert(all[all.len() - 1].0 == i);
            }
        }
    }
}

/// Timestamp labels name their own unit: a column whose logical type is a
/// timestamp is labelled `TIMESTAMP_MILLIS`, `TIMESTAMP_MICROS` or
/// `TIMESTAMP_NANOS` after its unit, whatever its UTC flag and converted type,
/// and its type text is the physical type, a space, and that label. Timestamps
/// of different units therefore get different labels.
pub proof fn law_timestamp_label_names_unit(col: ColumnInfo, adjusted: bool, unit: TimeUnit)
    requires
        col.logical_type == Some(LogicalType::Timestamp { is_adjusted_to_u_t_c: adjusted, unit }),
    ensures
        spec_logical_type_str(col.logical_type, col.converted_type) == Some(
            match unit {
                TimeUnit::MILLIS => "TIMESTAMP_MILLIS"@,
                TimeUnit::MICROS => "TIMESTAMP_MICROS"@,
                TimeUnit::NANOS => "TIMESTAMP_NANOS"@,
            },
        ),
        spec_field_type(col) == spec_physical_name(col.physical_type) + " "@ + match unit {
            TimeUnit::MILLIS => "TIMESTAMP_MILLIS"@,
            TimeUnit::MICROS => "TIMESTAMP_MICROS"@,
            TimeUnit::NANOS => "TIMESTAMP_NANOS"@,
        },
        forall|a1: bool, a2: bool, u1: TimeUnit, u2: TimeUnit|
            u1 != u2 ==> #[trigger] spec_logical_label(
                LogicalType::Timestamp { is_adjusted_to_u_t_c: a1, unit: u1 },
            ) != #[trigger] spec_logical_label(
                LogicalType::Timestamp { is_adjusted_to_u_t_c: a2, unit: u2 },
            ),
{
    reveal_strlit("TIMESTAMP_MILLIS");
    reveal_strlit("TIMESTAMP_MICROS");
    reveal_strlit("TIMESTAMP_NANOS");
    assert forall|a1: bool, a2: bool, u1: TimeUnit, u2: TimeUnit|
        u1 != u2 implies #[trigger] spec_logical_label(
            LogicalType::Timestamp { is_adjusted_to_u_t_c: a1, unit: u1 },
        ) != #[trigger] spec_logical_label(
            LogicalType::Timestamp { is_adjusted_to_u_t_c: a2, unit: u2 },
        ) by {
        let l1 = spec_logical_label(LogicalType::Timestamp { is_adjusted_to_u_t_c: a1, unit: u1 });
        let l2 = spec_logical_label(LogicalType::Timestamp { is_adjusted_to_u_t_c: a2, unit: u2 });
        if u1 == TimeUnit::MILLIS || u2 == TimeUnit::MILLIS {
            assert(l1[10] != l2[10] || l1[12] != l2[12]);
        } else {
            assert(l1.len() != l2.len());
        }
    }
}

} // verus!
