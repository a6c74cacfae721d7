//! Plain-value mirrors of the Parquet schema vocabulary (physical, logical and
//! converted types, repetition, schema trees), as the library reads them.
//! Each `debug_name` is the text that Rust's `{:?}` gives for the Parquet value.

use vstd::prelude::*;
use crate::text::{dec_int, fmt_i64};

verus! {

/// Physical storage type of a column.
#[allow(non_camel_case_types)]
#[derive(Clone, Copy, Debug, PartialEq, Eq, Structural)]
pub enum PhysicalType {
    BOOLEAN,
    INT32,
    INT64,
    INT96,
    FLOAT,
    DOUBLE,
    BYTE_ARRAY,
    FIXED_LEN_BYTE_ARRAY,
}

/// Time unit of a time or timestamp logical type.
#[allow(non_camel_case_types)]
#[derive(Clone, Copy, Debug, PartialEq, Eq, Structural)]
pub enum TimeUnit {
    MILLIS,
    MICROS,
    NANOS,
}

/// Logical annotation of a column.
#[derive(Clone, Copy, Debug, PartialEq, Eq, Structural)]
pub enum LogicalType {
    String,
    Mapping,
    List,
    Enum,
    Decimal { scale: i32, precision: i32 },
    Date,
    Time { is_adjusted_to_u_t_c: bool, unit: TimeUnit },
    Timestamp { is_adjusted_to_u_t_c: bool, unit: TimeUnit },
    Integer { bit_width: i8, is_signed: bool },
    Unknown,
    Json,
    Bson,
    Uuid,
    Float16,
}

/// Legacy (converted) annotation of a column.
#[allow(non_camel_case_types)]
#[derive(Clone, Copy, Debug, PartialEq, Eq, Structural)]
pub enum ConvertedType {
    NONE,
    UTF8,
    MAP,
    MAP_KEY_VALUE,
    LIST,
    ENUM,
    DECIMAL,
    DATE,
    TIME_MILLIS,
    TIME_MICROS,
    TIMESTAMP_MILLIS,
    TIMESTAMP_MICROS,
    UINT_8,
    UINT_16,
    UINT_32,
    UINT_64,
    INT_8,
    INT_16,
    INT_32,
    INT_64,
    JSON,
    BSON,
    INTERVAL,
}

/// Repetition of a field.
#[allow(non_camel_case_types)]
#[derive(Clone, Copy, Debug, PartialEq, Eq, Structural)]
pub enum Repetition {
    REQUIRED,
    OPTIONAL,
    REPEATED,
}

/// A node of a Parquet schema tree: a primitive column or a group of fields.
#[derive(Debug)]
pub struct SchemaType {
    pub name: String,
    pub logical_type: Option<LogicalType>,
    pub converted_type: ConvertedType,
    pub kind: SchemaKind,
}

/// What a schema node holds.
#[derive(Debug)]
pub enum SchemaKind {
    Primitive { physical_type: PhysicalType, type_length: i32, precision: i32, scale: i32 },
    Group { fields: Vec<SchemaType> },
}

/// The `{:?}` text of a physical type.
pub open spec fn spec_physical_name(p: PhysicalType) -> Seq<char> {
    match p {
        PhysicalType::BOOLEAN => "BOOLEAN"@,
        PhysicalType::INT32 => "INT32"@,
        PhysicalType::INT64 => "INT64"@,
        PhysicalType::INT96 => "INT96"@,
        PhysicalType::FLOAT => "FLOAT"@,
        PhysicalType::DOUBLE => "DOUBLE"@,
        PhysicalType::BYTE_ARRAY => "BYTE_ARRAY"@,
        PhysicalType::FIXED_LEN_BYTE_ARRAY => "FIXED_LEN_BYTE_ARRAY"@,
    }
}

/// The `{:?}` text of a converted type.
pub open spec fn spec_converted_name(c: ConvertedType) -> Seq<char> {
    match c {
        ConvertedType::NONE => "NONE"@,
        ConvertedType::UTF8 => "UTF8"@,
        ConvertedType::MAP => "MAP"@,
        ConvertedType::MAP_KEY_VALUE => "MAP_KEY_VALUE"@,
        ConvertedType::LIST => "LIST"@,
        ConvertedType::ENUM => "ENUM"@,
        ConvertedType::DECIMAL => "DECIMAL"@,
        ConvertedType::DATE => "DATE"@,
        ConvertedType::TIME_MILLIS => "TIME_MILLIS"@,
        ConvertedType::TIME_MICROS => "TIME_MICROS"@,
        ConvertedType::TIMESTAMP_MILLIS => "TIMESTAMP_MILLIS"@,
        ConvertedType::TIMESTAMP_MICROS => "TIMESTAMP_MICROS"@,
        ConvertedType::UINT_8 => "UINT_8"@,
        ConvertedType::UINT_16 => "UINT_16"@,
        ConvertedType::UINT_32 => "UINT_32"@,
        ConvertedType::UINT_64 => "UINT_64"@,
        ConvertedType::INT_8 => "INT_8"@,
        ConvertedType::INT_16 => "INT_16"@,
        ConvertedType::INT_32 => "INT_32"@,
        ConvertedType::INT_64 => "INT_64"@,
        ConvertedType::JSON => "JSON"@,
        ConvertedType::BSON => "BSON"@,
        ConvertedType::INTERVAL => "INTERVAL"@,
    }
}

/// The text of a boolean.
pub open spec fn spec_bool_text(b: bool) -> Seq<char> {
    if b {
        "true"@
    } else {
        "false"@
    }
}

/// The `{:?}` text of a time unit.
pub open spec fn spec_time_unit_debug(u: TimeUnit) -> Seq<char> {
    match u {
        TimeUnit::MILLIS => "MILLIS(MilliSeconds)"@,
        TimeUnit::MICROS => "MICROS(MicroSeconds)"@,
        TimeUnit::NANOS => "NANOS(NanoSeconds)"@,
    }
}

/// The `{:?}` text of a logical type.
pub open spec fn spec_logical_debug(lt: LogicalType) -> Seq<char> {
    match lt {
        LogicalType::String => "String"@,
        LogicalType::Mapping => "Map"@,
        LogicalType::List => "List"@,
        LogicalType::Enum => "Enum"@,
        LogicalType::Decimal { scale, precision } => "Decimal { scale: "@ + dec_int(scale as int)
            + ", precision: "@ + dec_int(precision as int) + " }"@,
        LogicalType::Date => "Date"@,
        LogicalType::Time { is_adjusted_to_u_t_c, unit } => "Time { is_adjusted_to_u_t_c: "@
            + spec_bool_text(is_adjusted_to_u_t_c) + ", unit: "@ + spec_time_unit_debug(unit)
            + " }"@,
        LogicalType::Timestamp { is_adjusted_to_u_t_c, unit } =>
            "Timestamp { is_adjusted_to_u_t_c: "@ + spec_bool_text(is_adjusted_to_u_t_c)
            + ", unit: "@ + spec_time_unit_debug(unit) + " }"@,
        LogicalType::Integer { bit_width, is_signed } => "Integer { bit_width: "@ + dec_int(
            bit_width as int,
        ) + ", is_signed: "@ + spec_bool_text(is_signed) + " }"@,
        LogicalType::Unknown => "Unknown"@,
        LogicalType::Json => "Json"@,
        LogicalType::Bson => "Bson"@,
        LogicalType::Uuid => "Uuid"@,
        LogicalType::Float16 => "Float16"@,
    }
}

impl PhysicalType {
    /// The `{:?}` text of the physical type.
    pub fn debug_name(&self) -> (s: String)
        ensures
            s@ == spec_physical_name(*self),
    {
        match self {
            PhysicalType::BOOLEAN => String::from_str("BOOLEAN"),
            PhysicalType::INT32 => String::from_str("INT32"),
            PhysicalType::INT64 => String::from_str("INT64"),
            PhysicalType::INT96 => String::from_str("INT96"),
            PhysicalType::FLOAT => String::from_str("FLOAT"),
            PhysicalType::DOUBLE => String::from_str("DOUBLE"),
            PhysicalType::BYTE_ARRAY => String::from_str("BYTE_ARRAY"),
            PhysicalType::FIXED_LEN_BYTE_ARRAY => String::from_str("FIXED_LEN_BYTE_ARRAY"),
        }
    }
}

impl ConvertedType {
    /// The `{:?}` text of the converted type.
    pub fn debug_name(&self) -> (s: String)
        ensures
            s@ == spec_converted_name(*self),
    {
        match self {
            ConvertedType::NONE => String::from_str("NONE"),
            ConvertedType::UTF8 => String::from_str("UTF8"),
            ConvertedType::MAP => String::from_str("MAP"),
            ConvertedType::MAP_KEY_VALUE => String::from_str("MAP_KEY_VALUE"),
            ConvertedType::LIST => String::from_str("LIST"),
            ConvertedType::ENUM => String::from_str("ENUM"),
            ConvertedType::DECIMAL => String::from_str("DECIMAL"),
            ConvertedType::DATE => String::from_str("DATE"),
            ConvertedType::TIME_MILLIS => String::from_str("TIME_MILLIS"),
            ConvertedType::TIME_MICROS => String::from_str("TIME_MICROS"),
            ConvertedType::TIMESTAMP_MILLIS => String::from_str("TIMESTAMP_MILLIS"),
            ConvertedType::TIMESTAMP_MICROS => String::from_str("TIMESTAMP_MICROS"),
            ConvertedType::UINT_8 => String::from_str("UINT_8"),
            ConvertedType::UINT_16 => String::from_str("UINT_16"),
            ConvertedType::UINT_32 => String::from_str("UINT_32"),
            ConvertedType::UINT_64 => String::from_str("UINT_64"),
            ConvertedType::INT_8 => String::from_str("INT_8"),
            ConvertedType::INT_16 => String::from_str("INT_16"),
            ConvertedType::INT_32 => String::from_str("INT_32"),
            ConvertedType::INT_64 => String::from_str("INT_64"),
            ConvertedType::JSON => String::from_str("JSON"),
            ConvertedType::BSON => String::from_str("BSON"),
            ConvertedType::INTERVAL => String::from_str("INTERVAL"),
        }
    }
}

fn bool_text(b: bool) -> (s: String)
    ensures
        s@ == spec_bool_text(b),
{
    if b {
        String::from_str("true")
    } else {
        String::from_str("false")
    }
}

fn time_unit_debug(u: TimeUnit) -> (s: String)
    ensures
        s@ == spec_time_unit_debug(u),
{
    match u {
        TimeUnit::MILLIS => String::from_str("MILLIS(MilliSeconds)"),
        TimeUnit::MICROS => String::from_str("MICROS(MicroSeconds)"),
        TimeUnit::NANOS => String::from_str("NANOS(NanoSeconds)"),
    }
}

impl LogicalType {
    /// The `{:?}` text of the logical type.
    pub fn debug_name(&self) -> (s: String)
        ensures
            s@ == spec_logical_debug(*self),
    {
        match self {
            LogicalType::String => String::from_str("String"),
            LogicalType::Mapping => String::from_str("Map"),
            LogicalType::List => String::from_str("List"),
            LogicalType::Enum => String::from_str("Enum"),
            LogicalType::Decimal { scale, precision } => {
                let mut s = String::from_str("Decimal { scale: ");
                s.append(fmt_i64(*scale as i64).as_str());
                s.append(", precision: ");
                s.append(fmt_i64(*precision as i64).as_str());
                s.append(" }");
                s
            },
            LogicalType::Date => String::from_str("Date"),
            LogicalType::Time { is_adjusted_to_u_t_c, unit } => {
                let mut s = String::from_str("Time { is_adjusted_to_u_t_c: ");
                s.append(bool_text(*is_adjusted_to_u_t_c).as_str());
                s.append(", unit: ");
                s.append(time_unit_debug(*unit).as_str());
                s.append(" }");
                s
            },
            LogicalType::Timestamp { is_adjusted_to_u_t_c, unit } => {
                let mut s = String::from_str("Timestamp { is_adjusted_to_u_t_c: ");
                s.append(bool_text(*is_adjusted_to_u_t_c).as_str());
                s.append(", unit: ");
                s.append(time_unit_debug(*unit).as_str());
                s.append(" }");
                s
            },
            LogicalType::Integer { bit_width, is_signed } => {
                let mut s = String::from_str("Integer { bit_width: ");
                s.append(fmt_i64(*bit_width as i64).as_str());
                s.append(", is_signed: ");
                s.append(bool_text(*is_signed).as_str());
                s.append(" }");
                s
            },
            LogicalType::Unknown => String::from_str("Unknown"),
            LogicalType::Json => String::from_str("Json"),
            LogicalType::Bson => String::from_str("Bson"),
            LogicalType::Uuid => String::from_str("Uuid"),
            LogicalType::Float16 => String::from_str("Float16"),
        }
    }
}

} // verus!
