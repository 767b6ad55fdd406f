use vstd::prelude::*;

verus! {

use vstd::string::StringSliceAdditionalSpecFns;
use crate::error::{ErrorCode, ErrorKind};

// File format parameters: the option names a CREATE FILE FORMAT statement
// may carry, their validation rules, and the parsed parameter types.

/// ASCII lower-casing of one byte.
pub open spec fn lower_byte(b: u8) -> u8 {
    if 65 <= b && b <= 90 {
        (b + 32) as u8
    } else {
        b
    }
}

/// ASCII lower-casing of a byte string; bytes outside `A`..`Z` are kept.
pub open spec fn lower_bytes(s: Seq<u8>) -> Seq<u8> {
    Seq::new(s.len(), |i: int| lower_byte(s[i]))
}

/// Case-insensitive equality of two strings, ASCII-wise.
pub open spec fn eq_ignore_case(a: Seq<u8>, b: Seq<u8>) -> bool {
    lower_bytes(a) == lower_bytes(b)
}

/// Compare two strings ignoring ASCII case.
pub fn str_eq_ignore_ascii_case(a: &str, b: &str) -> (r: bool)
    ensures
        r == eq_ignore_case(a.spec_bytes(), b.spec_bytes()),
{
    let ab = a.as_bytes();
    let bb = b.as_bytes();
    if ab.len() != bb.len() {
        proof {
            assert(lower_bytes(a.spec_bytes()).len() != lower_bytes(b.spec_bytes()).len());
        }
        return false;
    }
    let mut i: usize = 0;
    while i < ab.len()
        invariant
            ab@ == a.spec_bytes(),
            bb@ == b.spec_bytes(),
            ab@.len() == bb@.len(),
            i <= ab@.len(),
            forall|j: int| 0 <= j < i ==> lower_byte(ab@[j]) == lower_byte(bb@[j]),
        decreases ab@.len() - i,
    {
        let x = ab[i];
        let y = bb[i];
        let xl = if 65 <= x && x <= 90 {
            x + 32
        } else {
            x
        };
        let yl = if 65 <= y && y <= 90 {
            y + 32
        } else {
            y
        };
        if xl != yl {
            proof {
                assert(lower_bytes(ab@)[i as int] != lower_bytes(bb@)[i as int]);
            }
            return false;
        }
        i = i + 1;
    }
    proof {
        assert(lower_bytes(ab@) =~= lower_bytes(bb@));
    }
    true
}

/// Exact string equality.
pub fn str_eq(a: &str, b: &str) -> (r: bool)
    ensures
        r == (a.spec_bytes() == b.spec_bytes()),
{
    crate::kv_key::bytes_eq(a.as_bytes(), b.as_bytes())
}

/// The file format family of a stage.
#[derive(Clone, Copy, Debug, PartialEq, Eq, Structural)]
pub enum StageFileFormatType {
    Csv,
    Tsv,
    NdJson,
    Json,
    Xml,
    Parquet,
    Avro,
    Orc,
}

/// The format family a (case-insensitive) name denotes, if any.
pub open spec fn format_of(s: Seq<u8>) -> Option<StageFileFormatType> {
    if eq_ignore_case(s, "CSV".spec_bytes()) {
        Some(StageFileFormatType::Csv)
    } else if eq_ignore_case(s, "TSV".spec_bytes()) || eq_ignore_case(
        s,
        "TABSEPARATED".spec_bytes(),
    ) {
        Some(StageFileFormatType::Tsv)
    } else if eq_ignore_case(s, "NDJSON".spec_bytes()) || eq_ignore_case(
        s,
        "JSONEACHROW".spec_bytes(),
    ) {
        Some(StageFileFormatType::NdJson)
    } else if eq_ignore_case(s, "JSON".spec_bytes()) {
        Some(StageFileFormatType::Json)
    } else if eq_ignore_case(s, "XML".spec_bytes()) {
        Some(StageFileFormatType::Xml)
    } else if eq_ignore_case(s, "PARQUET".spec_bytes()) {
        Some(StageFileFormatType::Parquet)
    } else if eq_ignore_case(s, "AVRO".spec_bytes()) {
        Some(StageFileFormatType::Avro)
    } else if eq_ignore_case(s, "ORC".spec_bytes()) {
        Some(StageFileFormatType::Orc)
    } else {
        None
    }
}

impl StageFileFormatType {
    /// Read a format family from its (case-insensitive) name.
    pub fn from_str(s: &str) -> (r: Result<StageFileFormatType, String>)
        ensures
            r is Ok <==> format_of(s.spec_bytes()) is Some,
            format_of(s.spec_bytes()) is Some ==> r == Ok::<StageFileFormatType, String>(
                format_of(s.spec_bytes()).unwrap(),
            ),
    {
        if str_eq_ignore_ascii_case(s, "CSV") {
            Ok(StageFileFormatType::Csv)
        } else if str_eq_ignore_ascii_case(s, "TSV") || str_eq_ignore_ascii_case(s, "TABSEPARATED") {
            Ok(StageFileFormatType::Tsv)
        } else if str_eq_ignore_ascii_case(s, "NDJSON") || str_eq_ignore_ascii_case(
            s,
            "JSONEACHROW",
        ) {
            Ok(StageFileFormatType::NdJson)
        } else if str_eq_ignore_ascii_case(s, "JSON") {
            Ok(StageFileFormatType::Json)
        } else if str_eq_ignore_ascii_case(s, "XML") {
            Ok(StageFileFormatType::Xml)
        } else if str_eq_ignore_ascii_case(s, "PARQUET") {
            Ok(StageFileFormatType::Parquet)
        } else if str_eq_ignore_ascii_case(s, "AVRO") {
            Ok(StageFileFormatType::Avro)
        } else if str_eq_ignore_ascii_case(s, "ORC") {
            Ok(StageFileFormatType::Orc)
        } else {
            Err("Unknown file format type".to_owned())
        }
    }
}

/// The compression applied to staged files.
#[derive(Clone, Copy, Debug, PartialEq, Eq, Structural, Default)]
pub enum StageFileCompression {
    /// No compression.
    #[default]
    Uncompressed,
    Auto,
    Gzip,
    Bz2,
    Brotli,
    Zstd,
    Deflate,
    RawDeflate,
    Xz,
}

impl StageFileCompression {
    /// Read a compression kind from its (case-insensitive) name.
    pub fn from_str(s: &str) -> (r: Result<StageFileCompression, String>)
        ensures
            r is Ok <==> (eq_ignore_case(s.spec_bytes(), "NONE".spec_bytes()) || eq_ignore_case(
                s.spec_bytes(),
                "AUTO".spec_bytes(),
            ) || eq_ignore_case(s.spec_bytes(), "GZIP".spec_bytes()) || eq_ignore_case(
                s.spec_bytes(),
                "BZ2".spec_bytes(),
            ) || eq_ignore_case(s.spec_bytes(), "BROTLI".spec_bytes()) || eq_ignore_case(
                s.spec_bytes(),
                "ZSTD".spec_bytes(),
            ) || eq_ignore_case(s.spec_bytes(), "DEFLATE".spec_bytes()) || eq_ignore_case(
                s.spec_bytes(),
                "RAW_DEFLATE".spec_bytes(),
            ) || eq_ignore_case(s.spec_bytes(), "XZ".spec_bytes())),
    {
        if str_eq_ignore_ascii_case(s, "NONE") {
            Ok(StageFileCompression::Uncompressed)
        } else if str_eq_ignore_ascii_case(s, "AUTO") {
            Ok(StageFileCompression::Auto)
        } else if str_eq_ignore_ascii_case(s, "GZIP") {
            Ok(StageFileCompression::Gzip)
        } else if str_eq_ignore_ascii_case(s, "BZ2") {
            Ok(StageFileCompression::Bz2)
        } else if str_eq_ignore_ascii_case(s, "BROTLI") {
            Ok(StageFileCompression::Brotli)
        } else if str_eq_ignore_ascii_case(s, "ZSTD") {
            Ok(StageFileCompression::Zstd)
        } else if str_eq_ignore_ascii_case(s, "DEFLATE") {
            Ok(StageFileCompression::Deflate)
        } else if str_eq_ignore_ascii_case(s, "RAW_DEFLATE") {
            Ok(StageFileCompression::RawDeflate)
        } else if str_eq_ignore_ascii_case(s, "XZ") {
            Ok(StageFileCompression::Xz)
        } else {
            Err("Unknown compression".to_owned())
        }
    }
}

/// The geometry text encoding used in CSV output.
#[derive(Clone, Copy, Debug, PartialEq, Eq, Structural, Default)]
pub enum GeometryDataType {
    #[default]
    Ewkt,
    Wkt,
    Ewkb,
    Wkb,
    GeoJson,
}

/// What to store for a missing or null field.
#[derive(Clone, Copy, Debug, PartialEq, Eq, Structural, Default)]
pub enum NullAs {
    /// Report an error; the safe default for missing fields.
    #[default]
    Error,
    /// Store NULL; only valid for nullable columns.
    Null,
    /// Fall back to the field default defined at table creation.
    FieldDefault,
}

/// The policy a (case-insensitive) name denotes, if any.
pub open spec fn null_as_of(s: Seq<u8>) -> Option<NullAs> {
    if eq_ignore_case(s, "error".spec_bytes()) {
        Some(NullAs::Error)
    } else if eq_ignore_case(s, "null".spec_bytes()) {
        Some(NullAs::Null)
    } else if eq_ignore_case(s, "field_default".spec_bytes()) {
        Some(NullAs::FieldDefault)
    } else {
        None
    }
}

impl NullAs {
    /// Read a policy from its (case-insensitive) name.
    pub fn from_str(s: &str) -> (r: Result<NullAs, ()>)
        ensures
            r == (match null_as_of(s.spec_bytes()) {
                Some(v) => Ok::<NullAs, ()>(v),
                None => Err::<NullAs, ()>(()),
            }),
    {
        if str_eq_ignore_ascii_case(s, "error") {
            Ok(NullAs::Error)
        } else if str_eq_ignore_ascii_case(s, "null") {
            Ok(NullAs::Null)
        } else if str_eq_ignore_ascii_case(s, "field_default") {
            Ok(NullAs::FieldDefault)
        } else {
            Err(())
        }
    }

    /// Read an optional policy, falling back to `default`; exact about the
    /// parsed value and about which inputs are rejected.
    pub fn parse(s: Option<&str>, option_name: &str, default: NullAs) -> (r: Result<
        NullAs,
        ErrorCode,
    >)
        ensures
            s is None ==> r == Ok::<NullAs, ErrorCode>(default),
            s is Some ==> (match null_as_of(s.unwrap().spec_bytes()) {
                Some(v) => r == Ok::<NullAs, ErrorCode>(v),
                None => r is Err && r.unwrap_err()@.kind == ErrorKind::InvalidArgument,
            }),
    {
        match s {
            Some(v) => match NullAs::from_str(v) {
                Ok(r) => Ok(r),
                Err(_) => {
                    let mut msg = String::new();
                    msg.append("Invalid option value: ");
                    msg.append(option_name);
                    msg.append(" is set to ");
                    msg.append(v);
                    msg.append(". The valid values are ERROR | NULL | FIELD_DEFAULT.");
                    Err(ErrorCode::new(ErrorKind::InvalidArgument, msg))
                },
            },
            None => Ok(default),
        }
    }
}

/// What to store for an empty field.
#[derive(Clone, Copy, Debug, PartialEq, Eq, Structural, Default)]
pub enum EmptyFieldAs {
    #[default]
    Null,
    String,
    FieldDefault,
}

impl EmptyFieldAs {
    /// Read a policy from its (case-insensitive) name.
    pub fn from_str(s: &str) -> (r: Result<EmptyFieldAs, ErrorCode>)
        ensures
            r is Ok <==> (eq_ignore_case(s.spec_bytes(), "string".spec_bytes()) || eq_ignore_case(
                s.spec_bytes(),
                "null".spec_bytes(),
            ) || eq_ignore_case(s.spec_bytes(), "field_default".spec_bytes())),
            r is Err ==> r.unwrap_err()@.kind == ErrorKind::InvalidArgument,
    {
        if str_eq_ignore_ascii_case(s, "string") {
            Ok(EmptyFieldAs::String)
        } else if str_eq_ignore_ascii_case(s, "null") {
            Ok(EmptyFieldAs::Null)
        } else if str_eq_ignore_ascii_case(s, "field_default") {
            Ok(EmptyFieldAs::FieldDefault)
        } else {
            let mut msg = String::new();
            msg.append("Invalid option value. EMPTY_FILED_AS is currently set to ");
            msg.append(s);
            msg.append(". The valid values are NULL | STRING | FIELD_DEFAULT.");
            Err(ErrorCode::new(ErrorKind::InvalidArgument, msg))
        }
    }
}

/// The on-disk text form of binary columns.
#[derive(Clone, Copy, Debug, PartialEq, Eq, Structural, Default)]
pub enum BinaryFormat {
    #[default]
    Hex,
    Base64,
}

impl BinaryFormat {
    /// Read a format from its (case-insensitive) name.
    pub fn from_str(s: &str) -> (r: Result<BinaryFormat, ErrorCode>)
        ensures
            r is Ok <==> (eq_ignore_case(s.spec_bytes(), "hex".spec_bytes()) || eq_ignore_case(
                s.spec_bytes(),
                "base64".spec_bytes(),
            )),
            r is Err ==> r.unwrap_err()@.kind == ErrorKind::InvalidArgument,
    {
        if str_eq_ignore_ascii_case(s, "hex") {
            Ok(BinaryFormat::Hex)
        } else if str_eq_ignore_ascii_case(s, "base64") {
            Ok(BinaryFormat::Base64)
        } else {
            let mut msg = String::new();
            msg.append("Invalid option value: BINARY_FORMAT is set to ");
            msg.append(s);
            msg.append(". The valid values are HEX | BASE64.");
            Err(ErrorCode::new(ErrorKind::InvalidArgument, msg))
        }
    }
}

// ---------------------------------------------------------------------------
// Option value checks
// ---------------------------------------------------------------------------
/// A row tag is any non-empty string of at most 1024 bytes.
pub open spec fn row_tag_ok(s: Seq<u8>) -> bool {
    1 <= s.len() <= 1024
}

pub fn check_row_tag(option: &str) -> (r: Result<(), String>)
    ensures
        r is Ok <==> row_tag_ok(option.spec_bytes()),
{
    let len = option.as_bytes().len();
    if len > 1024 || len < 1 {
        Err("Expecting a non-empty string containing at most 1024 characters.".to_owned())
    } else {
        Ok(())
    }
}

/// A field delimiter is a single byte that is not an ASCII letter or digit.
pub open spec fn field_delimiter_ok(s: Seq<u8>) -> bool {
    s.len() == 1 && !is_ascii_alphanumeric_byte(s[0])
}

pub open spec fn is_ascii_alphanumeric_byte(b: u8) -> bool {
    (48 <= b && b <= 57) || (65 <= b && b <= 90) || (97 <= b && b <= 122)
}

pub fn check_field_delimiter(option: &str) -> (r: Result<(), String>)
    ensures
        r is Ok <==> field_delimiter_ok(option.spec_bytes()),
{
    let bytes = option.as_bytes();
    if bytes.len() == 1 {
        let b = bytes[0];
        if !((48 <= b && b <= 57) || (65 <= b && b <= 90) || (97 <= b && b <= 122)) {
            return Ok(());
        }
    }
    Err("Expecting a single one-byte, non-alphanumeric character.".to_owned())
}

/// A record delimiter is a single non-alphanumeric byte, or the two-byte
/// sequence carriage-return line-feed.
pub open spec fn record_delimiter_ok(s: Seq<u8>) -> bool {
    field_delimiter_ok(s) || s =~= seq![13u8, 10u8]
}

pub fn check_record_delimiter(option: &str) -> (r: Result<(), String>)
    ensures
        r is Ok <==> record_delimiter_ok(option.spec_bytes()),
{
    let bytes = option.as_bytes();
    if bytes.len() == 1 {
        let b = bytes[0];
        if !((48 <= b && b <= 57) || (65 <= b && b <= 90) || (97 <= b && b <= 122)) {
            return Ok(());
        }
    } else if bytes.len() == 2 {
        if bytes[0] == 13 && bytes[1] == 10 {
            proof {
                assert(option.spec_bytes() =~= seq![13u8, 10u8]);
            }
            return Ok(());
        }
    }
    proof {
        if option.spec_bytes() =~= seq![13u8, 10u8] {
            assert(bytes@.len() == 2 && bytes@[0] == 13 && bytes@[1] == 10);
        }
    }
    Err("Expecting a single one-byte, non-alphanumeric character or '\\r\\n'.".to_owned())
}

/// The display text for NaN values must be one of the accepted spellings.
pub open spec fn nan_display_ok(s: Seq<u8>) -> bool {
    ||| s == "nan".spec_bytes()
    ||| s == "NaN".spec_bytes()
    ||| s == "null".spec_bytes()
    ||| s == "NULL".spec_bytes()
}

pub fn check_nan_display(nan_display: &str) -> (r: Result<(), String>)
    ensures
        r is Ok <==> nan_display_ok(nan_display.spec_bytes()),
{
    if str_eq(nan_display, "nan") || str_eq(nan_display, "NaN") || str_eq(nan_display, "null")
        || str_eq(nan_display, "NULL") {
        Ok(())
    } else {
        Err("The valid values are 'nan', 'NaN', 'null', 'NULL'.".to_owned())
    }
}

/// A quote must be a single quote, double quote or backtick.
pub open spec fn quote_ok(s: Seq<u8>) -> bool {
    s == "'".spec_bytes() || s == "\"".spec_bytes() || s == "`".spec_bytes()
}

pub fn check_quote(option: &str) -> (r: Result<(), String>)
    ensures
        r is Ok <==> quote_ok(option.spec_bytes()),
{
    if str_eq(option, "'") || str_eq(option, "\"") || str_eq(option, "`") {
        Ok(())
    } else {
        Err("The valid values are '\\'', '\"', '`'.".to_owned())
    }
}

/// The escape is a single backslash, or empty to disable escaping.
pub open spec fn escape_ok(s: Seq<u8>) -> bool {
    s == "\\".spec_bytes() || s == "".spec_bytes()
}

pub fn check_escape(option: &str) -> (r: Result<(), String>)
    ensures
        r is Ok <==> escape_ok(option.spec_bytes()),
{
    if str_eq(option, "\\") || str_eq(option, "") {
        Ok(())
    } else {
        Err("The valid values are '\\\\', ''.".to_owned())
    }
}

// ---------------------------------------------------------------------------
// Parameter types
// ---------------------------------------------------------------------------
/// CSV reading and writing parameters.
#[derive(Debug, PartialEq, Eq)]
pub struct CsvFileFormatParams {
    pub compression: StageFileCompression,
    pub field_delimiter: String,
    pub record_delimiter: String,
    pub escape: String,
    pub quote: String,
    pub error_on_column_count_mismatch: bool,
    pub headers: u64,
    pub output_header: bool,
    pub binary_format: BinaryFormat,
    pub null_display: String,
    pub nan_display: String,
    pub empty_field_as: EmptyFieldAs,
    pub geometry_format: GeometryDataType,
}

impl Default for CsvFileFormatParams {
    fn default() -> (r: CsvFileFormatParams)
        ensures
            r.compression == StageFileCompression::Uncompressed,
            r.field_delimiter@ == ","@,
            r.record_delimiter@ == "\n"@,
            r.null_display@ == "\\N"@,
            r.nan_display@ == "NaN"@,
            r.escape@ == ""@,
            r.quote@ == "\""@,
            r.headers == 0,
            r.error_on_column_count_mismatch,
            !r.output_header,
            r.empty_field_as == EmptyFieldAs::Null,
            r.binary_format == BinaryFormat::Hex,
            r.geometry_format == GeometryDataType::Ewkt,
    {
        CsvFileFormatParams {
            compression: StageFileCompression::Uncompressed,
            headers: 0,
            field_delimiter: ",".to_owned(),
            record_delimiter: "\n".to_owned(),
            null_display: "\\N".to_owned(),
            nan_display: "NaN".to_owned(),
            escape: "".to_owned(),
            quote: "\"".to_owned(),
            error_on_column_count_mismatch: true,
            empty_field_as: EmptyFieldAs::Null,
            output_header: false,
            binary_format: BinaryFormat::Hex,
            geometry_format: GeometryDataType::Ewkt,
        }
    }
}

/// TSV reading and writing parameters.
#[derive(Debug, PartialEq, Eq)]
pub struct TsvFileFormatParams {
    pub compression: StageFileCompression,
    pub headers: u64,
    pub field_delimiter: String,
    pub record_delimiter: String,
    pub nan_display: String,
    pub escape: String,
    pub quote: String,
}

impl Default for TsvFileFormatParams {
    fn default() -> (r: TsvFileFormatParams)
        ensures
            r.compression == StageFileCompression::Uncompressed,
            r.headers == 0,
            r.field_delimiter@ == "\t"@,
            r.record_delimiter@ == "\n"@,
            r.nan_display@ == "nan"@,
            r.escape@ == "\\"@,
            r.quote@ == "'"@,
    {
        TsvFileFormatParams {
            compression: StageFileCompression::Uncompressed,
            headers: 0,
            field_delimiter: "\t".to_owned(),
            record_delimiter: "\n".to_owned(),
            nan_display: "nan".to_owned(),
            escape: "\\".to_owned(),
            quote: "'".to_owned(),
        }
    }
}

/// XML reading parameters.
#[derive(Debug, PartialEq, Eq)]
pub struct XmlFileFormatParams {
    pub compression: StageFileCompression,
    pub row_tag: String,
}

impl Default for XmlFileFormatParams {
    fn default() -> (r: XmlFileFormatParams)
        ensures
            r.compression == StageFileCompression::Uncompressed,
            r.row_tag@ == "row"@,
    {
        XmlFileFormatParams {
            compression: StageFileCompression::Uncompressed,
            row_tag: "row".to_owned(),
        }
    }
}

/// JSON (one document per file) parameters.
#[derive(Debug, PartialEq, Eq)]
pub struct JsonFileFormatParams {
    pub compression: StageFileCompression,
}

impl Default for JsonFileFormatParams {
    fn default() -> (r: JsonFileFormatParams)
        ensures
            r.compression == StageFileCompression::Uncompressed,
    {
        JsonFileFormatParams { compression: StageFileCompression::Uncompressed }
    }
}

/// Newline-delimited JSON parameters.
#[derive(Debug, PartialEq, Eq)]
pub struct NdJsonFileFormatParams {
    pub compression: StageFileCompression,
    pub missing_field_as: NullAs,
    pub null_field_as: NullAs,
    pub null_if: Vec<String>,
}

impl NdJsonFileFormatParams {
    /// Build NDJSON parameters, rejecting `ERROR` as a null-field policy:
    /// exactly when an input fails to parse or the null-field policy parses
    /// to `Error` the result is an error, and otherwise every field is
    /// pinned.
    pub fn try_create(
        compression: StageFileCompression,
        missing_field_as: Option<&str>,
        null_field_as: Option<&str>,
        null_if: Vec<String>,
    ) -> (r: Result<NdJsonFileFormatParams, ErrorCode>)
        ensures
            ({
                let m = match missing_field_as {
                    None => Some(NullAs::Error),
                    Some(v) => null_as_of(v.spec_bytes()),
                };
                let nf = match null_field_as {
                    None => Some(NullAs::Null),
                    Some(v) => null_as_of(v.spec_bytes()),
                };
                match (m, nf) {
                    (Some(mv), Some(nfv)) => if nfv == NullAs::Error {
                        r is Err && r.unwrap_err()@.kind == ErrorKind::InvalidArgument
                    } else {
                        r == Ok::<NdJsonFileFormatParams, ErrorCode>(
                            NdJsonFileFormatParams {
                                compression,
                                missing_field_as: mv,
                                null_field_as: nfv,
                                null_if,
                            },
                        )
                    },
                    _ => r is Err && r.unwrap_err()@.kind == ErrorKind::InvalidArgument,
                }
            }),
    {
        let missing_field_as = match NullAs::parse(
            missing_field_as,
            "missing_field_as",
            NullAs::Error,
        ) {
            Ok(v) => v,
            Err(e) => {
                return Err(e);
            },
        };
        let null_field_as = match NullAs::parse(null_field_as, "missing_field_as", NullAs::Null) {
            Ok(v) => v,
            Err(e) => {
                return Err(e);
            },
        };
        if matches!(null_field_as, NullAs::Error) {
            return Err(
                ErrorCode::new(
                    ErrorKind::InvalidArgument,
                    "Invalid option value: NULL_FIELD_AS is set to ERROR. The valid values are NULL | FIELD_DEFAULT.".to_owned(),
                ),
            );
        }
        Ok(NdJsonFileFormatParams { compression, missing_field_as, null_field_as, null_if })
    }
}

impl Default for NdJsonFileFormatParams {
    fn default() -> (r: NdJsonFileFormatParams)
        ensures
            r.compression == StageFileCompression::Uncompressed,
            r.missing_field_as == NullAs::Error,
            r.null_field_as == NullAs::FieldDefault,
            r.null_if@.len() == 0,
    {
        NdJsonFileFormatParams {
            compression: StageFileCompression::Uncompressed,
            missing_field_as: NullAs::Error,
            null_field_as: NullAs::FieldDefault,
            null_if: Vec::new(),
        }
    }
}

/// Parquet parameters.
#[derive(Debug, PartialEq, Eq)]
pub struct ParquetFileFormatParams {
    pub missing_field_as: NullAs,
}

impl ParquetFileFormatParams {
    pub fn try_create(missing_field_as: Option<&str>) -> (r: Result<
        ParquetFileFormatParams,
        ErrorCode,
    >)
        ensures
            ({
                let m = match missing_field_as {
                    None => Some(NullAs::Error),
                    Some(v) => null_as_of(v.spec_bytes()),
                };
                match m {
                    Some(mv) => r == Ok::<ParquetFileFormatParams, ErrorCode>(
                        ParquetFileFormatParams { missing_field_as: mv },
                    ),
                    None => r is Err && r.unwrap_err()@.kind == ErrorKind::InvalidArgument,
                }
            }),
    {
        let missing_field_as = match NullAs::parse(
            missing_field_as,
            "missing_field_as",
            NullAs::Error,
        ) {
            Ok(v) => v,
            Err(e) => {
                return Err(e);
            },
        };
        Ok(ParquetFileFormatParams { missing_field_as })
    }
}

impl Default for ParquetFileFormatParams {
    fn default() -> (r: ParquetFileFormatParams)
        ensures
            r.missing_field_as == NullAs::Error,
    {
        ParquetFileFormatParams { missing_field_as: NullAs::Error }
    }
}

/// The CSV parameters carry exactly their default values.
pub open spec fn is_default_csv(c: CsvFileFormatParams) -> bool {
    &&& c.compression == StageFileCompression::Uncompressed
    &&& c.field_delimiter@ == ","@
    &&& c.record_delimiter@ == "\n"@
    &&& c.null_display@ == "\\N"@
    &&& c.nan_display@ == "NaN"@
    &&& c.escape@ == ""@
    &&& c.quote@ == "\""@
    &&& c.headers == 0
    &&& c.error_on_column_count_mismatch
    &&& !c.output_header
    &&& c.empty_field_as == EmptyFieldAs::Null
    &&& c.binary_format == BinaryFormat::Hex
    &&& c.geometry_format == GeometryDataType::Ewkt
}

/// The TSV parameters carry exactly their default values.
pub open spec fn is_default_tsv(t: TsvFileFormatParams) -> bool {
    &&& t.compression == StageFileCompression::Uncompressed
    &&& t.headers == 0
    &&& t.field_delimiter@ == "\t"@
    &&& t.record_delimiter@ == "\n"@
    &&& t.nan_display@ == "nan"@
    &&& t.escape@ == "\\"@
    &&& t.quote@ == "'"@
}

/// The XML parameters carry exactly their default values.
pub open spec fn is_default_xml(x: XmlFileFormatParams) -> bool {
    x.compression == StageFileCompression::Uncompressed && x.row_tag@ == "row"@
}

/// The JSON parameters carry exactly their default values.
pub open spec fn is_default_json(j: JsonFileFormatParams) -> bool {
    j.compression == StageFileCompression::Uncompressed
}

/// The NDJSON parameters carry exactly their default values.
pub open spec fn is_default_ndjson(p: NdJsonFileFormatParams) -> bool {
    &&& p.compression == StageFileCompression::Uncompressed
    &&& p.missing_field_as == NullAs::Error
    &&& p.null_field_as == NullAs::FieldDefault
    &&& p.null_if@.len() == 0
}

/// The Parquet parameters carry exactly their default values.
pub open spec fn is_default_parquet(p: ParquetFileFormatParams) -> bool {
    p.missing_field_as == NullAs::Error
}

/// File format parameters after checking and parsing.
#[derive(Debug, PartialEq, Eq)]
pub enum FileFormatParams {
    Csv(CsvFileFormatParams),
    Tsv(TsvFileFormatParams),
    NdJson(NdJsonFileFormatParams),
    Json(JsonFileFormatParams),
    Xml(XmlFileFormatParams),
    Parquet(ParquetFileFormatParams),
}

/// The UTF-8 bytes of an owned string.
pub open spec fn string_bytes(s: &String) -> Seq<u8> {
    vstd::utf8::encode_utf8(s@)
}

/// The option values of the parameters respect their validation rules.
pub open spec fn params_ok(p: FileFormatParams) -> bool {
    match p {
        FileFormatParams::Tsv(t) => {
            &&& field_delimiter_ok(string_bytes(&t.field_delimiter))
            &&& record_delimiter_ok(string_bytes(&t.record_delimiter))
            &&& quote_ok(string_bytes(&t.quote))
            &&& escape_ok(string_bytes(&t.escape))
            &&& nan_display_ok(string_bytes(&t.nan_display))
        },
        FileFormatParams::Csv(c) => {
            &&& field_delimiter_ok(string_bytes(&c.field_delimiter))
            &&& record_delimiter_ok(string_bytes(&c.record_delimiter))
            &&& quote_ok(string_bytes(&c.quote))
            &&& escape_ok(string_bytes(&c.escape))
            &&& nan_display_ok(string_bytes(&c.nan_display))
        },
        FileFormatParams::Xml(x) => row_tag_ok(string_bytes(&x.row_tag)),
        _ => true,
    }
}

/// Default CSV parameters pass every option check.
proof fn lemma_default_csv_params_ok(c: CsvFileFormatParams)
    requires
        is_default_csv(c),
    ensures
        params_ok(FileFormatParams::Csv(c)),
{
    reveal_strlit(",");
    reveal_strlit("\n");
    assert(vstd::utf8::is_ascii_chars(","@));
    vstd::utf8::is_ascii_chars_encode_utf8(","@);
    assert(string_bytes(&c.field_delimiter).len() == 1);
    assert(string_bytes(&c.field_delimiter)[0] == ',' as u8);
    assert(field_delimiter_ok(string_bytes(&c.field_delimiter)));
    assert(vstd::utf8::is_ascii_chars("\n"@));
    vstd::utf8::is_ascii_chars_encode_utf8("\n"@);
    assert(string_bytes(&c.record_delimiter).len() == 1);
    assert(string_bytes(&c.record_delimiter)[0] == '\n' as u8);
    assert(record_delimiter_ok(string_bytes(&c.record_delimiter)));
    assert(quote_ok(string_bytes(&c.quote)));
    assert(escape_ok(string_bytes(&c.escape)));
    assert(nan_display_ok(string_bytes(&c.nan_display)));
}

impl FileFormatParams {
    pub fn get_type(&self) -> (r: StageFileFormatType)
        ensures
            r == (match self {
                FileFormatParams::Csv(_) => StageFileFormatType::Csv,
                FileFormatParams::Tsv(_) => StageFileFormatType::Tsv,
                FileFormatParams::NdJson(_) => StageFileFormatType::NdJson,
                FileFormatParams::Json(_) => StageFileFormatType::Json,
                FileFormatParams::Xml(_) => StageFileFormatType::Xml,
                FileFormatParams::Parquet(_) => StageFileFormatType::Parquet,
            }),
    {
        match self {
            FileFormatParams::Csv(_) => StageFileFormatType::Csv,
            FileFormatParams::Tsv(_) => StageFileFormatType::Tsv,
            FileFormatParams::NdJson(_) => StageFileFormatType::NdJson,
            FileFormatParams::Json(_) => StageFileFormatType::Json,
            FileFormatParams::Xml(_) => StageFileFormatType::Xml,
            FileFormatParams::Parquet(_) => StageFileFormatType::Parquet,
        }
    }

    /// The default parameters for a supported format family: the returned
    /// variant matches the family and holds exactly that family's defaults
    /// (so `get_type` of the result gives the family back).
    pub fn default_by_type(format_type: StageFileFormatType) -> (r: Result<
        FileFormatParams,
        ErrorCode,
    >)
        ensures
            r is Ok <==> !(format_type == StageFileFormatType::Avro || format_type
                == StageFileFormatType::Orc),
            r is Err ==> r.unwrap_err()@.kind == ErrorKind::IllegalFileFormat,
            format_type == StageFileFormatType::Csv ==> (match r {
                Ok(p) => matches!(p, FileFormatParams::Csv(_)) && (match p {
                    FileFormatParams::Csv(c) => is_default_csv(c),
                    _ => false,
                }),
                Err(_) => false,
            }),
            format_type == StageFileFormatType::Tsv ==> (match r {
                Ok(p) => (match p {
                    FileFormatParams::Tsv(t) => is_default_tsv(t),
                    _ => false,
                }),
                Err(_) => false,
            }),
            format_type == StageFileFormatType::Xml ==> (match r {
                Ok(p) => (match p {
                    FileFormatParams::Xml(x) => is_default_xml(x),
                    _ => false,
                }),
                Err(_) => false,
            }),
            format_type == StageFileFormatType::Json ==> (match r {
                Ok(p) => (match p {
                    FileFormatParams::Json(j) => is_default_json(j),
                    _ => false,
                }),
                Err(_) => false,
            }),
            format_type == StageFileFormatType::NdJson ==> (match r {
                Ok(p) => (match p {
                    FileFormatParams::NdJson(nd) => is_default_ndjson(nd),
                    _ => false,
                }),
                Err(_) => false,
            }),
            format_type == StageFileFormatType::Parquet ==> (match r {
                Ok(p) => (match p {
                    FileFormatParams::Parquet(pq) => is_default_parquet(pq),
                    _ => false,
                }),
                Err(_) => false,
            }),
    {
        match format_type {
            StageFileFormatType::Parquet => Ok(
                FileFormatParams::Parquet(ParquetFileFormatParams::default()),
            ),
            StageFileFormatType::Csv => Ok(FileFormatParams::Csv(CsvFileFormatParams::default())),
            StageFileFormatType::Tsv => Ok(FileFormatParams::Tsv(TsvFileFormatParams::default())),
            StageFileFormatType::NdJson => Ok(
                FileFormatParams::NdJson(NdJsonFileFormatParams::default()),
            ),
            StageFileFormatType::Json => Ok(
                FileFormatParams::Json(JsonFileFormatParams::default()),
            ),
            StageFileFormatType::Xml => Ok(FileFormatParams::Xml(XmlFileFormatParams::default())),
            _ => Err(
                ErrorCode::new(
                    ErrorKind::IllegalFileFormat,
                    "Unsupported file format type".to_owned(),
                ),
            ),
        }
    }

    pub fn compression(&self) -> (r: StageFileCompression)
        ensures
            r == (match self {
                FileFormatParams::Csv(v) => v.compression,
                FileFormatParams::Tsv(v) => v.compression,
                FileFormatParams::NdJson(v) => v.compression,
                FileFormatParams::Json(v) => v.compression,
                FileFormatParams::Xml(v) => v.compression,
                FileFormatParams::Parquet(_) => StageFileCompression::Uncompressed,
            }),
    {
        match self {
            FileFormatParams::Csv(v) => v.compression,
            FileFormatParams::Tsv(v) => v.compression,
            FileFormatParams::NdJson(v) => v.compression,
            FileFormatParams::Json(v) => v.compression,
            FileFormatParams::Xml(v) => v.compression,
            FileFormatParams::Parquet(_) => StageFileCompression::Uncompressed,
        }
    }

    /// Validate every checked option value; exact about acceptance.
    pub fn check(&self) -> (r: Result<(), String>)
        ensures
            r is Ok <==> params_ok(*self),
    {
        match self {
            FileFormatParams::Tsv(p) => {
                if let Err(m) = check_field_delimiter(p.field_delimiter.as_str()) {
                    return Err(check_message("FIELD_DELIMITER", p.field_delimiter.as_str(), m));
                }
                if let Err(m) = check_record_delimiter(p.record_delimiter.as_str()) {
                    return Err(check_message("RECORD_DELIMITER", p.record_delimiter.as_str(), m));
                }
                if let Err(m) = check_quote(p.quote.as_str()) {
                    return Err(check_message("QUOTE", p.quote.as_str(), m));
                }
                if let Err(m) = check_escape(p.escape.as_str()) {
                    return Err(check_message("ESCAPE", p.escape.as_str(), m));
                }
                if let Err(m) = check_nan_display(p.nan_display.as_str()) {
                    return Err(check_message("NAN_DISPLAY", p.nan_display.as_str(), m));
                }
                Ok(())
            },
            FileFormatParams::Csv(p) => {
                if let Err(m) = check_field_delimiter(p.field_delimiter.as_str()) {
                    return Err(check_message("FIELD_DELIMITER", p.field_delimiter.as_str(), m));
                }
                if let Err(m) = check_record_delimiter(p.record_delimiter.as_str()) {
                    return Err(check_message("RECORD_DELIMITER", p.record_delimiter.as_str(), m));
                }
                if let Err(m) = check_quote(p.quote.as_str()) {
                    return Err(check_message("QUOTE", p.quote.as_str(), m));
                }
                if let Err(m) = check_escape(p.escape.as_str()) {
                    return Err(check_message("ESCAPE", p.escape.as_str(), m));
                }
                if let Err(m) = check_nan_display(p.nan_display.as_str()) {
                    return Err(check_message("NAN_DISPLAY", p.nan_display.as_str(), m));
                }
                Ok(())
            },
            FileFormatParams::Xml(p) => {
                if let Err(m) = check_row_tag(p.row_tag.as_str()) {
                    return Err(check_message("ROW_TAG", p.row_tag.as_str(), m));
                }
                Ok(())
            },
            _ => Ok(()),
        }
    }
}

/// `<NAME> is currently set to '<value>'. <detail>`
fn check_message(name: &str, value: &str, detail: String) -> (r: String) {
    let mut msg = String::new();
    msg.append(name);
    msg.append(" is currently set to '");
    msg.append(value);
    msg.append("'. ");
    msg.append(detail.as_str());
    msg
}

// ---------------------------------------------------------------------------
// The raw option list and its conversion into parameters
// ---------------------------------------------------------------------------
/// The position of the first entry carrying `key`, searching from `j`; the
/// list length when there is none.
pub open spec fn first_key_from(opts: Seq<(String, String)>, key: Seq<char>, j: int) -> int
    decreases opts.len() - j,
{
    if j < 0 || j >= opts.len() {
        opts.len() as int
    } else if opts[j].0@ == key {
        j
    } else {
        first_key_from(opts, key, j + 1)
    }
}

/// Some entry of the option list carries the given key.
pub open spec fn has_key(opts: Seq<(String, String)>, key: Seq<char>) -> bool {
    first_key_from(opts, key, 0) < opts.len()
}

/// The value of the first entry carrying `key`.
pub open spec fn key_value(opts: Seq<(String, String)>, key: Seq<char>) -> String
    recommends
        has_key(opts, key),
{
    opts[first_key_from(opts, key, 0)].1
}

/// The list with its first `key` entry removed, when there is one.
pub open spec fn without_key(opts: Seq<(String, String)>, key: Seq<char>) -> Seq<(String, String)> {
    if has_key(opts, key) {
        opts.remove(first_key_from(opts, key, 0))
    } else {
        opts
    }
}

proof fn lemma_fk_skip(opts: Seq<(String, String)>, key: Seq<char>, j: int)
    requires
        0 <= j <= opts.len(),
        forall|m: int| 0 <= m < j ==> (#[trigger] opts[m]).0@ != key,
    ensures
        first_key_from(opts, key, 0) == first_key_from(opts, key, j),
    decreases j,
{
    if j > 0 {
        lemma_fk_skip(opts, key, j - 1);
    }
}

proof fn lemma_fk_bounds(opts: Seq<(String, String)>, key: Seq<char>, j: int)
    requires
        0 <= j <= opts.len(),
    ensures
        j <= first_key_from(opts, key, j) <= opts.len(),
    decreases opts.len() - j,
{
    if j < opts.len() && opts[j].0@ != key {
        lemma_fk_bounds(opts, key, j + 1);
    }
}

proof fn lemma_fk_found(opts: Seq<(String, String)>, key: Seq<char>, j: int)
    requires
        0 <= j <= opts.len(),
        first_key_from(opts, key, j) < opts.len(),
    ensures
        opts[first_key_from(opts, key, j)].0@ == key,
    decreases opts.len() - j,
{
    if j < opts.len() && opts[j].0@ != key {
        lemma_fk_found(opts, key, j + 1);
    }
}

proof fn lemma_fk_before(opts: Seq<(String, String)>, key: Seq<char>, j: int)
    requires
        0 <= j <= opts.len(),
    ensures
        forall|m: int|
            j <= m < first_key_from(opts, key, j) ==> (#[trigger] opts[m]).0@ != key,
    decreases opts.len() - j,
{
    if j < opts.len() && opts[j].0@ != key {
        lemma_fk_before(opts, key, j + 1);
    }
}

/// Removing the first entry of one key leaves the presence and the first
/// value of any other key untouched.
proof fn lemma_without_other_key(opts: Seq<(String, String)>, k1: Seq<char>, k2: Seq<char>)
    requires
        k1 != k2,
    ensures
        has_key(without_key(opts, k1), k2) == has_key(opts, k2),
        has_key(opts, k2) ==> key_value(without_key(opts, k1), k2) == key_value(opts, k2),
{
    if has_key(opts, k1) {
        let i = first_key_from(opts, k1, 0);
        lemma_fk_bounds(opts, k1, 0);
        lemma_fk_found(opts, k1, 0);
        let rem = opts.remove(i);
        if has_key(opts, k2) {
            let f2 = first_key_from(opts, k2, 0);
            lemma_fk_bounds(opts, k2, 0);
            lemma_fk_found(opts, k2, 0);
            lemma_fk_before(opts, k2, 0);
            assert(f2 != i);
            let t = if i < f2 {
                f2 - 1
            } else {
                f2
            };
            assert(rem[t] == opts[f2]);
            assert forall|m: int| 0 <= m < t implies (#[trigger] rem[m]).0@ != k2 by {
                if m < i {
                    assert(rem[m] == opts[m]);
                } else {
                    assert(rem[m] == opts[m + 1]);
                }
            }
            lemma_fk_skip(rem, k2, t);
            assert(first_key_from(rem, k2, t) == t);
            assert(first_key_from(rem, k2, 0) == t);
        } else {
            lemma_fk_before(opts, k2, 0);
            assert forall|m: int| 0 <= m < rem.len() implies (#[trigger] rem[m]).0@ != k2 by {
                if m < i {
                    assert(rem[m] == opts[m]);
                } else {
                    assert(rem[m] == opts[m + 1]);
                }
            }
            lemma_fk_skip(rem, k2, rem.len() as int);
            lemma_fk_bounds(rem, k2, 0);
        }
    }
}

/// The raw `FILE_FORMAT (...)` options as key/value pairs, before checking.
#[derive(Debug, PartialEq, Eq)]
pub struct FileFormatOptionsAst {
    pub options: Vec<(String, String)>,
}

impl FileFormatOptionsAst {
    pub fn new(options: Vec<(String, String)>) -> (r: FileFormatOptionsAst)
        ensures
            r.options@ == options@,
    {
        FileFormatOptionsAst { options }
    }

    /// Take the first entry with the given key out of the list, if any.
    pub fn take_entry(&mut self, key: &str) -> (r: Option<String>)
        ensures
            match r {
                Some(v) => has_key(old(self).options@, key@) && v == key_value(
                    old(self).options@,
                    key@,
                ) && final(self).options@ == without_key(old(self).options@, key@),
                None => final(self).options@ == old(self).options@ && !has_key(
                    old(self).options@,
                    key@,
                ),
            },
    {
        let k = key.to_owned();
        let mut i: usize = 0;
        while i < self.options.len()
            invariant
                *self == *old(self),
                i <= self.options@.len(),
                k@ == key@,
                forall|j: int| 0 <= j < i ==> (#[trigger] self.options@[j]).0@ != key@,
            decreases self.options@.len() - i,
        {
            if self.options[i].0 == k {
                proof {
                    lemma_fk_skip(self.options@, key@, i as int);
                    assert(first_key_from(self.options@, key@, 0) == i as int);
                }
                let entry = self.options.remove(i);
                return Some(entry.1);
            }
            i = i + 1;
        }
        proof {
            lemma_fk_skip(self.options@, key@, self.options@.len() as int);
            lemma_fk_bounds(self.options@, key@, 0);
        }
        None
    }

    /// Take a string option, falling back to `default`.
    pub fn take_string(&mut self, key: &str, default: String) -> (r: String)
        ensures
            has_key(old(self).options@, key@) ==> r == key_value(old(self).options@, key@)
                && final(self).options@ == without_key(old(self).options@, key@),
            !has_key(old(self).options@, key@) ==> r == default && final(self).options@ == old(self).options@,
    {
        match self.take_entry(key) {
            Some(v) => v,
            None => default,
        }
    }

    /// Take the format family from the `type` or `format` option: the
    /// result is `Ok` exactly when one of the two keys is present alone and
    /// its value names a family, and both entries are consumed either way.
    pub fn take_type(&mut self) -> (r: Result<StageFileFormatType, ErrorCode>)
        ensures
            r is Err ==> r.unwrap_err()@.kind == ErrorKind::IllegalFileFormat,
            final(self).options@ == without_key(
                without_key(old(self).options@, "type"@),
                "format"@,
            ),
            ({
                let opts = old(self).options@;
                let t_has = has_key(opts, "type"@);
                let f_has = has_key(opts, "format"@);
                &&& (t_has && f_has ==> r is Err)
                &&& (!t_has && !f_has ==> r is Err)
                &&& (t_has && !f_has ==> (match format_of(
                    string_bytes(&key_value(opts, "type"@)),
                ) {
                    Some(t) => r == Ok::<StageFileFormatType, ErrorCode>(t),
                    None => r is Err,
                }))
                &&& (!t_has && f_has ==> (match format_of(
                    string_bytes(&key_value(opts, "format"@)),
                ) {
                    Some(t) => r == Ok::<StageFileFormatType, ErrorCode>(t),
                    None => r is Err,
                }))
            }),
    {
        proof {
            reveal_strlit("type");
            reveal_strlit("format");
            assert("type"@.len() == 4);
            assert("format"@.len() == 6);
            assert("type"@ != "format"@);
            lemma_without_other_key(old(self).options@, "type"@, "format"@);
        }
        let t = self.take_entry("type");
        let f = self.take_entry("format");
        match (t, f) {
            (Some(v), None) => match StageFileFormatType::from_str(v.as_str()) {
                Ok(ft) => Ok(ft),
                Err(m) => Err(ErrorCode::new(ErrorKind::IllegalFileFormat, m)),
            },
            (None, Some(v)) => match StageFileFormatType::from_str(v.as_str()) {
                Ok(ft) => Ok(ft),
                Err(m) => Err(ErrorCode::new(ErrorKind::IllegalFileFormat, m)),
            },
            (Some(_), Some(_)) => Err(
                ErrorCode::new(
                    ErrorKind::IllegalFileFormat,
                    "Invalid FILE_FORMAT options: both TYPE and FORMAT option are present. Please only use the TYPE to specify the file format type. The FORMAT option is deprecated.".to_owned(),
                ),
            ),
            (None, None) => Err(
                ErrorCode::new(
                    ErrorKind::IllegalFileFormat,
                    "Invalid FILE_FORMAT options: FILE_FORMAT must include at least one of the TYPE or NAME option. Currently, neither is specified.".to_owned(),
                ),
            ),
        }
    }

    /// Take the compression option; absent means uncompressed.
    pub fn take_compression(&mut self) -> (r: Result<StageFileCompression, ErrorCode>)
        ensures
            r is Err ==> r.unwrap_err()@.kind == ErrorKind::IllegalFileFormat,
            !has_key(old(self).options@, "compression"@) ==> r == Ok::<
                StageFileCompression,
                ErrorCode,
            >(StageFileCompression::Uncompressed) && final(self).options@ == old(self).options@,
    {
        match self.take_entry("compression") {
            Some(c) => match StageFileCompression::from_str(c.as_str()) {
                Ok(v) => Ok(v),
                Err(m) => Err(ErrorCode::new(ErrorKind::IllegalFileFormat, m)),
            },
            None => Ok(StageFileCompression::Uncompressed),
        }
    }

    /// Take a decimal option, falling back to `default`.
    pub fn take_u64(&mut self, key: &str, default: u64) -> (r: Result<u64, ErrorCode>)
        ensures
            r is Err ==> r.unwrap_err()@.kind == ErrorKind::InvalidArgument,
            !has_key(old(self).options@, key@) ==> r == Ok::<u64, ErrorCode>(default) && final(self).options@ == old(self).options@,
    {
        match self.take_entry(key) {
            Some(v) => match crate::kv_key::parse_dec_u64(v.as_str().as_bytes()) {
                Ok(n) => Ok(n),
                Err(_) => {
                    let mut msg = String::new();
                    msg.append("Invalid integer value ");
                    msg.append(v.as_str());
                    msg.append(" for option ");
                    msg.append(key);
                    msg.append(".");
                    Err(ErrorCode::new(ErrorKind::InvalidArgument, msg))
                },
            },
            None => Ok(default),
        }
    }

    /// Take a boolean option, falling back to `default`.
    pub fn take_bool(&mut self, key: &str, default: bool) -> (r: Result<bool, ErrorCode>)
        ensures
            r is Err ==> r.unwrap_err()@.kind == ErrorKind::IllegalFileFormat,
            !has_key(old(self).options@, key@) ==> r == Ok::<bool, ErrorCode>(default) && final(self).options@ == old(self).options@,
    {
        match self.take_entry(key) {
            Some(v) => {
                if str_eq_ignore_ascii_case(v.as_str(), "true") {
                    Ok(true)
                } else if str_eq_ignore_ascii_case(v.as_str(), "false") {
                    Ok(false)
                } else {
                    let mut msg = String::new();
                    msg.append("Invalid boolean value ");
                    msg.append(v.as_str());
                    msg.append(" for option ");
                    msg.append(key);
                    msg.append(".");
                    Err(ErrorCode::new(ErrorKind::IllegalFileFormat, msg))
                }
            },
            None => Ok(default),
        }
    }

    pub fn is_empty(&self) -> (r: bool)
        ensures
            r == (self.options@.len() == 0),
    {
        self.options.len() == 0
    }
}

/// What `null_if` means once decoded from its JSON spelling; a function of
/// the option text alone.
pub uninterp spec fn json_string_list(s: Seq<char>) -> Option<Seq<Seq<char>>>;

/// Relies on `serde_json::from_str::<Vec<String>>`: parses the text as a
/// JSON array of strings, deterministically in the text.
#[verifier::external_body]
fn parse_json_string_list(s: &str) -> (r: Option<Vec<String>>)
    ensures
        match r {
            Some(v) => json_string_list(s@) == Some(v.deep_view()),
            None => json_string_list(s@) is None,
        },
{
    serde_json::from_str::<Vec<String>>(s).ok()
}

impl FileFormatParams {
    /// Turn raw options into checked parameters.  With `old` set, legacy
    /// formats skip validation and ignore leftover options.  A sole `type`
    /// option naming CSV yields exactly the CSV defaults.
    pub fn try_from_ast(ast: FileFormatOptionsAst, old: bool) -> (r: Result<
        FileFormatParams,
        ErrorCode,
    >)
        ensures
            match r {
                Ok(p) => !old ==> params_ok(p),
                Err(e) => e@.kind == ErrorKind::IllegalFileFormat || e@.kind
                    == ErrorKind::InvalidArgument || e@.kind == ErrorKind::BadArguments,
            },
            r is Err && r.unwrap_err()@.kind == ErrorKind::BadArguments ==> !old,
            (!old && ast.options@.len() == 1 && ast.options@[0].0@ == "type"@ && format_of(
                string_bytes(&ast.options@[0].1),
            ) == Some(StageFileFormatType::Csv)) ==> (match r {
                Ok(p) => (match p {
                    FileFormatParams::Csv(c) => is_default_csv(c),
                    _ => false,
                }),
                Err(_) => false,
            }),
    {
        let ghost opts0 = ast.options@;
        let ghost single_csv = opts0.len() == 1 && opts0[0].0@ == "type"@ && format_of(
            string_bytes(&opts0[0].1),
        ) == Some(StageFileFormatType::Csv);
        proof {
            reveal_strlit("type");
            reveal_strlit("format");
            assert("type"@.len() == 4);
            assert("format"@.len() == 6);
            if single_csv {
                assert(first_key_from(opts0, "type"@, 0) == 0);
                assert(has_key(opts0, "type"@));
                assert(key_value(opts0, "type"@) == opts0[0].1);
                assert(opts0[0].0@ != "format"@);
                assert(first_key_from(opts0, "format"@, 1) == 1);
                assert(first_key_from(opts0, "format"@, 0) == 1);
                assert(!has_key(opts0, "format"@));
                assert(without_key(opts0, "type"@) =~= Seq::<(String, String)>::empty());
                assert(without_key(without_key(opts0, "type"@), "format"@) =~= Seq::<
                    (String, String),
                >::empty());
            }
        }
        let mut ast = ast;
        let typ = match ast.take_type() {
            Ok(t) => t,
            Err(e) => {
                return Err(e);
            },
        };
        let params = match typ {
            StageFileFormatType::Xml => {
                let default = XmlFileFormatParams::default();
                let row_tag = ast.take_string("row_tag", default.row_tag);
                let compression = match ast.take_compression() {
                    Ok(c) => c,
                    Err(e) => {
                        return Err(e);
                    },
                };
                FileFormatParams::Xml(XmlFileFormatParams { compression, row_tag })
            },
            StageFileFormatType::Json => {
                let compression = match ast.take_compression() {
                    Ok(c) => c,
                    Err(e) => {
                        return Err(e);
                    },
                };
                FileFormatParams::Json(JsonFileFormatParams { compression })
            },
            StageFileFormatType::NdJson => {
                let compression = match ast.take_compression() {
                    Ok(c) => c,
                    Err(e) => {
                        return Err(e);
                    },
                };
                let missing_field_as = ast.take_entry("missing_field_as");
                let null_field_as = ast.take_entry("null_field_as");
                let null_if_text = ast.take_entry("null_if");
                let null_if = match null_if_text {
                    None => Vec::new(),
                    Some(s) => match parse_json_string_list(s.as_str()) {
                        Some(values) => values,
                        None => {
                            let mut msg = String::new();
                            msg.append(
                                "Invalid option value: NULL_IF is currently set to ",
                            );
                            msg.append(s.as_str());
                            msg.append(
                                " (in JSON). The valid values are a list of strings.",
                            );
                            return Err(ErrorCode::new(ErrorKind::InvalidArgument, msg));
                        },
                    },
                };
                let p = match NdJsonFileFormatParams::try_create(
                    compression,
                    match &missing_field_as {
                        Some(v) => Some(v.as_str()),
                        None => None,
                    },
                    match &null_field_as {
                        Some(v) => Some(v.as_str()),
                        None => None,
                    },
                    null_if,
                ) {
                    Ok(p) => p,
                    Err(e) => {
                        return Err(e);
                    },
                };
                FileFormatParams::NdJson(p)
            },
            StageFileFormatType::Parquet => {
                let missing_field_as = ast.take_entry("missing_field_as");
                let p = match ParquetFileFormatParams::try_create(
                    match &missing_field_as {
                        Some(v) => Some(v.as_str()),
                        None => None,
                    },
                ) {
                    Ok(p) => p,
                    Err(e) => {
                        return Err(e);
                    },
                };
                FileFormatParams::Parquet(p)
            },
            StageFileFormatType::Csv => {
                let default = CsvFileFormatParams::default();
                let compression = match ast.take_compression() {
                    Ok(c) => c,
                    Err(e) => {
                        return Err(e);
                    },
                };
                let headers = match ast.take_u64("skip_header", default.headers) {
                    Ok(v) => v,
                    Err(e) => {
                        return Err(e);
                    },
                };
                let field_delimiter = ast.take_string("field_delimiter", default.field_delimiter);
                let record_delimiter = ast.take_string(
                    "record_delimiter",
                    default.record_delimiter,
                );
                let nan_display = ast.take_string("nan_display", default.nan_display);
                let escape = ast.take_string("escape", default.escape);
                let quote = ast.take_string("quote", default.quote);
                let null_display = ast.take_string("null_display", default.null_display);
                let empty_field_as = match ast.take_entry("empty_field_as") {
                    Some(s) => match EmptyFieldAs::from_str(s.as_str()) {
                        Ok(v) => v,
                        Err(e) => {
                            return Err(e);
                        },
                    },
                    None => EmptyFieldAs::Null,
                };
                let binary_format = match ast.take_entry("binary_format") {
                    Some(s) => match BinaryFormat::from_str(s.as_str()) {
                        Ok(v) => v,
                        Err(e) => {
                            return Err(e);
                        },
                    },
                    None => BinaryFormat::Hex,
                };
                let error_on_column_count_mismatch = match ast.take_bool(
                    "error_on_column_count_mismatch",
                    default.error_on_column_count_mismatch,
                ) {
                    Ok(v) => v,
                    Err(e) => {
                        return Err(e);
                    },
                };
                let output_header = match ast.take_bool("output_header", default.output_header) {
                    Ok(v) => v,
                    Err(e) => {
                        return Err(e);
                    },
                };
                FileFormatParams::Csv(
                    CsvFileFormatParams {
                        compression,
                        headers,
                        field_delimiter,
                        record_delimiter,
                        null_display,
                        nan_display,
                        escape,
                        quote,
                        error_on_column_count_mismatch,
                        empty_field_as,
                        binary_format,
                        output_header,
                        geometry_format: GeometryDataType::Ewkt,
                    },
                )
            },
            StageFileFormatType::Tsv => {
                let default = TsvFileFormatParams::default();
                let compression = match ast.take_compression() {
                    Ok(c) => c,
                    Err(e) => {
                        return Err(e);
                    },
                };
                let headers = match ast.take_u64("skip_header", default.headers) {
                    Ok(v) => v,
                    Err(e) => {
                        return Err(e);
                    },
                };
                let field_delimiter = ast.take_string("field_delimiter", default.field_delimiter);
                let record_delimiter = ast.take_string(
                    "record_delimiter",
                    default.record_delimiter,
                );
                let nan_display = ast.take_string("nan_display", default.nan_display);
                let escape = ast.take_string("escape", default.escape);
                let quote = ast.take_string("quote", default.quote);
                FileFormatParams::Tsv(
                    TsvFileFormatParams {
                        compression,
                        headers,
                        field_delimiter,
                        record_delimiter,
                        nan_display,
                        quote,
                        escape,
                    },
                )
            },
            _ => {
                return Err(
                    ErrorCode::new(
                        ErrorKind::IllegalFileFormat,
                        "Unsupported file format".to_owned(),
                    ),
                );
            },
        };
        proof {
            if single_csv {
                assert(match params {
                    FileFormatParams::Csv(c) => is_default_csv(c),
                    _ => false,
                });
                match &params {
                    FileFormatParams::Csv(c) => {
                        lemma_default_csv_params_ok(*c);
                    },
                    _ => {},
                }
            }
        }
        if old {
            Ok(params)
        } else {
            match params.check() {
                Ok(_) => {},
                Err(msg) => {
                    let mut full = String::new();
                    full.append("Invalid option value: ");
                    full.append(msg.as_str());
                    return Err(ErrorCode::new(ErrorKind::BadArguments, full));
                },
            }
            if ast.is_empty() {
                Ok(params)
            } else {
                return Err(
                    ErrorCode::new(
                        ErrorKind::IllegalFileFormat,
                        "Unsupported options remain for this file format".to_owned(),
                    ),
                );
            }
        }
    }
}

} // verus!
