//! Splitting large files into numbered chunks: the configuration, the chunk names, the
//! checks made before splitting, and the parsing of human-readable sizes.

use vstd::prelude::*;

use crate::text::{
    decimal, join_path, path_join, str_equal, u64_to_decimal, zero_padded, zero_padded_decimal,
};

verus! {

/// Configuration for file splitting operations.
#[derive(Debug)]
pub struct SplitConfig {
    /// Path to the input file to split.
    pub input_path: String,
    /// Directory where chunks will be written (defaults to the input file's directory).
    pub output_dir: Option<String>,
    /// Size of each chunk in bytes.
    pub chunk_size: u64,
    /// Prefix for chunk filenames (defaults to the input filename).
    pub prefix: Option<String>,
    /// Number of digits for chunk numbering.
    pub digits: u8,
}

impl Default for SplitConfig {
    fn default() -> (config: Self)
        ensures
            config.input_path@ == Seq::<char>::empty(),
            config.output_dir is None,
            config.chunk_size == 1024 * 1024,
            config.prefix is None,
            config.digits == 3,
    {
        SplitConfig {
            input_path: String::new(),
            output_dir: None,
            chunk_size: 1024 * 1024,
            prefix: None,
            digits: 3,
        }
    }
}

/// Information about a created file chunk.
#[derive(Debug)]
pub struct ChunkInfo {
    /// Path to the chunk file.
    pub path: String,
    /// Size of the chunk in bytes.
    pub size: u64,
    /// Chunk number, from 1.
    pub number: usize,
}

/// The one-line description of a chunk.
pub open spec fn chunk_line(chunk: ChunkInfo) -> Seq<char> {
    "Chunk "@ + decimal(chunk.number as nat) + ": "@ + chunk.path@ + " ("@ + decimal(
        chunk.size as nat,
    ) + " bytes)"@
}

impl ChunkInfo {
    /// Describes the chunk on one line.
    pub fn to_string(&self) -> (line: String)
        ensures
            line@ == chunk_line(*self),
    {
        let mut line = "Chunk ".to_owned();
        let number = u64_to_decimal(self.number as u64);
        line.append(number.as_str());
        line.append(": ");
        line.append(self.path.as_str());
        line.append(" (");
        let size = u64_to_decimal(self.size);
        line.append(size.as_str());
        line.append(" bytes)");
        line
    }
}

/// Result of a file splitting operation.
#[derive(Debug)]
pub struct SplitResult {
    /// Original input file path.
    pub input_path: String,
    /// Output directory used.
    pub output_dir: String,
    /// Chunk size used.
    pub chunk_size: u64,
    /// Information about created chunks.
    pub chunks: Vec<ChunkInfo>,
    /// Total size of the original file.
    pub total_size: u64,
}

/// The chunk lines of a report, each indented and ended by a newline.
pub open spec fn chunk_lines(chunks: Seq<ChunkInfo>, count: nat) -> Seq<char>
    decreases count,
{
    if count == 0 {
        Seq::empty()
    } else {
        chunk_lines(chunks, (count - 1) as nat) + "  "@ + chunk_line(chunks[count - 1]) + "\n"@
    }
}

/// The multi-line report of a split.
pub open spec fn split_report(result: SplitResult) -> Seq<char> {
    "📄 Split '"@ + result.input_path@ + "' into "@ + decimal(result.chunks@.len()) + " chunks\n"@
        + "📁 Output directory: "@ + result.output_dir@ + "\n"@ + "📊 Total size: "@ + decimal(
        result.total_size as nat,
    ) + " bytes\n"@ + "🔢 Chunk size: "@ + decimal(result.chunk_size as nat) + " bytes\n"@
        + "\n📋 Created chunks:\n"@ + chunk_lines(result.chunks@, result.chunks@.len())
}

impl SplitResult {
    /// Describes the split on several lines.
    pub fn to_string(&self) -> (report: String)
        ensures
            report@ == split_report(*self),
    {
        let mut report = "📄 Split '".to_owned();
        report.append(self.input_path.as_str());
        report.append("' into ");
        let count = u64_to_decimal(self.chunks.len() as u64);
        report.append(count.as_str());
        report.append(" chunks\n");
        report.append("📁 Output directory: ");
        report.append(self.output_dir.as_str());
        report.append("\n");
        report.append("📊 Total size: ");
        let total = u64_to_decimal(self.total_size);
        report.append(total.as_str());
        report.append(" bytes\n");
        report.append("🔢 Chunk size: ");
        let size = u64_to_decimal(self.chunk_size);
        report.append(size.as_str());
        report.append(" bytes\n");
        report.append("\n📋 Created chunks:\n");
        let ghost header = report@;
        let mut k: usize = 0;
        while k < self.chunks.len()
            invariant
                k <= self.chunks@.len(),
                report@ == header + chunk_lines(self.chunks@, k as nat),
            decreases self.chunks@.len() - k,
        {
            let line = self.chunks[k].to_string();
            report.append("  ");
            report.append(line.as_str());
            report.append("\n");
            proof {
                assert(report@ =~= header + chunk_lines(self.chunks@, (k + 1) as nat));
            }
            k = k + 1;
        }
        proof {
            assert(report@ =~= split_report(*self));
        }
        report
    }
}

/// Why a file cannot be split.
#[derive(Debug, PartialEq, Eq)]
pub enum SplitError {
    /// The chunk size is zero.
    InvalidChunkSize,
    /// The digit count is outside 1 to 10.
    InvalidDigits,
    /// The input path does not exist.
    MissingInput(String),
    /// The input path exists but is not a file.
    NotAFile(String),
    /// The input file has no bytes.
    EmptyInput,
}

/// The message of a split error.
pub open spec fn split_error_message(e: SplitError) -> Seq<char> {
    match e {
        SplitError::InvalidChunkSize => "Chunk size must be greater than 0"@,
        SplitError::InvalidDigits => "Digits must be between 1 and 10"@,
        SplitError::MissingInput(path) => "Input file does not exist: "@ + path@,
        SplitError::NotAFile(path) => "Input path is not a file: "@ + path@,
        SplitError::EmptyInput => "Input file is empty"@,
    }
}

impl SplitError {
    /// Describes the error.
    pub fn to_string(&self) -> (message: String)
        ensures
            message@ == split_error_message(*self),
    {
        match self {
            SplitError::InvalidChunkSize => "Chunk size must be greater than 0".to_owned(),
            SplitError::InvalidDigits => "Digits must be between 1 and 10".to_owned(),
            SplitError::MissingInput(path) => {
                let mut m = "Input file does not exist: ".to_owned();
                m.append(path.as_str());
                m
            },
            SplitError::NotAFile(path) => {
                let mut m = "Input path is not a file: ".to_owned();
                m.append(path.as_str());
                m
            },
            SplitError::EmptyInput => "Input file is empty".to_owned(),
        }
    }
}

/// The first failed check of a configuration, given whether its input path exists and is a
/// file.
pub open spec fn config_problem(config: SplitConfig, input_exists: bool, input_is_file: bool) -> Option<
    SplitError,
> {
    if config.chunk_size == 0 {
        Some(SplitError::InvalidChunkSize)
    } else if config.digits == 0 || config.digits > 10 {
        Some(SplitError::InvalidDigits)
    } else if !input_exists {
        Some(SplitError::MissingInput(config.input_path))
    } else if !input_is_file {
        Some(SplitError::NotAFile(config.input_path))
    } else {
        None
    }
}

/// A split error is the expected one: same variant, same path text.
pub open spec fn split_error_is(e: SplitError, expected: SplitError) -> bool {
    match (e, expected) {
        (SplitError::InvalidChunkSize, SplitError::InvalidChunkSize) => true,
        (SplitError::InvalidDigits, SplitError::InvalidDigits) => true,
        (SplitError::MissingInput(a), SplitError::MissingInput(b)) => a@ == b@,
        (SplitError::NotAFile(a), SplitError::NotAFile(b)) => a@ == b@,
        (SplitError::EmptyInput, SplitError::EmptyInput) => true,
        _ => false,
    }
}

/// Validates a split configuration; the caller reports whether the input path exists and is
/// a regular file.
pub fn validate_config(config: &SplitConfig, input_exists: bool, input_is_file: bool) -> (result:
    Result<(), SplitError>)
    ensures
        match config_problem(*config, input_exists, input_is_file) {
            None => result is Ok,
            Some(problem) => result matches Err(e) && split_error_is(e, problem),
        },
{
    if config.chunk_size == 0 {
        return Err(SplitError::InvalidChunkSize);
    }
    if config.digits == 0 || config.digits > 10 {
        return Err(SplitError::InvalidDigits);
    }
    if !input_exists {
        return Err(SplitError::MissingInput(config.input_path.clone()));
    }
    if !input_is_file {
        return Err(SplitError::NotAFile(config.input_path.clone()));
    }
    Ok(())
}

/// Checks the input's size before splitting: an empty file cannot be split.
pub fn check_input_size(total_size: u64) -> (result: Result<(), SplitError>)
    ensures
        result is Ok <==> total_size > 0,
        result matches Err(e) ==> e is EmptyInput,
{
    if total_size == 0 {
        return Err(SplitError::EmptyInput);
    }
    Ok(())
}

/// The position of the first `.` among the first `count` characters.
pub open spec fn first_dot(name: Seq<char>, count: nat) -> Option<nat>
    decreases count,
{
    if count == 0 {
        None
    } else {
        match first_dot(name, (count - 1) as nat) {
            Some(p) => Some(p),
            None => if name[count - 1] == '.' {
                Some((count - 1) as nat)
            } else {
                None
            },
        }
    }
}

/// The base name and extension of chunk files: the prefix with no extension when one is
/// configured, else the input's file name (or `chunk`) split at its first dot, so that
/// `.tar.gz` stays whole.
pub open spec fn filename_parts(prefix: Option<Seq<char>>, file_name: Option<Seq<char>>) -> (Seq<
    char,
>, Seq<char>) {
    match prefix {
        Some(p) => (p, Seq::empty()),
        None => {
            let name = match file_name {
                Some(n) => n,
                None => "chunk"@,
            };
            match first_dot(name, name.len()) {
                Some(dot) => (name.subrange(0, dot as int), name.subrange(dot as int, name.len() as int)),
                None => (name, Seq::empty()),
            }
        },
    }
}

/// Once the first dot is found, looking further keeps it.
proof fn lemma_first_dot_stays(name: Seq<char>, count: nat, total: nat)
    requires
        count <= total,
        first_dot(name, count) is Some,
    ensures
        first_dot(name, total) == first_dot(name, count),
    decreases total - count,
{
    if count < total {
        lemma_first_dot_stays(name, count, (total - 1) as nat);
    }
}

/// Determines the base name and extension for chunk files from the configured prefix and the
/// input's file name, when it has one that is valid text.
pub fn determine_filename_parts(config: &SplitConfig, file_name: Option<&str>) -> (parts: (
    String,
    String,
))
    ensures
        (parts.0@, parts.1@) == filename_parts(
            match config.prefix {
                Some(p) => Some(p@),
                None => None,
            },
            match file_name {
                Some(n) => Some(n@),
                None => None,
            },
        ),
{
    match &config.prefix {
        Some(prefix) => (prefix.clone(), String::new()),
        None => {
            let name = match file_name {
                Some(n) => n,
                None => "chunk",
            };
            let ghost name_model = match file_name {
                Some(n) => n@,
                None => "chunk"@,
            };
            let len = name.unicode_len();
            let mut k: usize = 0;
            while k < len
                invariant
                    config.prefix is None,
                    name@ == name_model,
                    name_model == match file_name {
                        Some(n) => n@,
                        None => "chunk"@,
                    },
                    len == name@.len(),
                    k <= len,
                    first_dot(name@, k as nat) is None,
                decreases len - k,
            {
                if name.get_char(k) == '.' {
                    proof {
                        lemma_first_dot_stays(name@, (k + 1) as nat, len as nat);
                    }
                    let base = name.substring_char(0, k);
                    let ext = name.substring_char(k, len);
                    return (base.to_owned(), ext.to_owned());
                }
                k = k + 1;
            }
            (name.to_owned(), String::new())
        },
    }
}

/// The name of a chunk file: base name, dash, zero-padded number, extension.
pub open spec fn chunk_file_name_of(base: Seq<char>, number: nat, extension: Seq<char>, digits: nat) -> Seq<
    char,
> {
    base + "-"@ + zero_padded(number, digits) + extension
}

/// Builds the name of chunk file `number`.
pub fn chunk_file_name(base: &str, number: usize, extension: &str, digits: u8) -> (name: String)
    ensures
        name@ == chunk_file_name_of(base@, number as nat, extension@, digits as nat),
{
    let mut name = base.to_owned();
    name.append("-");
    let padded = zero_padded_decimal(number as u64, digits as usize);
    name.append(padded.as_str());
    name.append(extension);
    name
}

/// The size of chunk `k` (from 0) of a file of `total` bytes cut every `chunk` bytes.
pub open spec fn planned_chunk_size(total: nat, chunk: nat, k: nat) -> nat {
    if total - k * chunk < chunk {
        (total - k * chunk) as nat
    } else {
        chunk
    }
}

/// The sum of the sizes of the first `count` chunks.
pub open spec fn chunk_size_sum(chunks: Seq<ChunkInfo>, count: nat) -> nat
    decreases count,
{
    if count == 0 {
        0
    } else {
        chunk_size_sum(chunks, (count - 1) as nat) + chunks[count - 1].size as nat
    }
}

/// The chunks of a file of `total` bytes: numbered from 1, each `chunk` bytes but the last,
/// none empty, named after the base name and extension inside the output directory, and
/// together exactly as large as the file.
pub open spec fn chunks_planned(
    chunks: Seq<ChunkInfo>,
    output_dir: Seq<char>,
    base: Seq<char>,
    extension: Seq<char>,
    digits: nat,
    chunk: nat,
    total: nat,
) -> bool {
    &&& forall|k: int|
        0 <= k < chunks.len() ==> {
            &&& (#[trigger] chunks[k]).number == k + 1
            &&& chunks[k].size == planned_chunk_size(total, chunk, k as nat)
            &&& chunks[k].size > 0
            &&& chunks[k].path@ == join_path(
                output_dir,
                chunk_file_name_of(base, (k + 1) as nat, extension, digits),
            )
        }
    &&& chunk_size_sum(chunks, chunks.len()) == total
}

/// The size sum of a prefix depends only on the sizes in that prefix.
proof fn lemma_chunk_size_sum_prefix(a: Seq<ChunkInfo>, b: Seq<ChunkInfo>, count: nat)
    requires
        count <= a.len(),
        count <= b.len(),
        forall|j: int| 0 <= j < count ==> a[j].size == b[j].size,
    ensures
        chunk_size_sum(a, count) == chunk_size_sum(b, count),
    decreases count,
{
    if count > 0 {
        lemma_chunk_size_sum_prefix(a, b, (count - 1) as nat);
    }
}

/// A prefix of the chunks below the file size ends before the file does.
proof fn lemma_chunk_index_bound(k: nat, chunk: nat, total: nat)
    requires
        chunk > 0,
        k * chunk < total,
    ensures
        k <= total / chunk,
{
    assert(k <= total / chunk) by (nonlinear_arith)
        requires
            chunk > 0,
            k * chunk < total,
    ;
}

/// Cuts a file of `total_size` bytes into the planned chunks.
fn plan_chunks(
    output_dir: &str,
    base: &str,
    extension: &str,
    digits: u8,
    chunk_size: u64,
    total_size: u64,
) -> (chunks: Vec<ChunkInfo>)
    requires
        chunk_size > 0,
        total_size / chunk_size + 2 <= usize::MAX,
    ensures
        chunks_planned(
            chunks@,
            output_dir@,
            base@,
            extension@,
            digits as nat,
            chunk_size as nat,
            total_size as nat,
        ),
{
    let mut chunks: Vec<ChunkInfo> = Vec::new();
    let mut offset: u64 = 0;
    let mut number: usize = 1;
    while offset < total_size
        invariant
            chunk_size > 0,
            total_size / chunk_size + 2 <= usize::MAX,
            offset <= total_size,
            number == chunks@.len() + 1,
            offset < total_size ==> offset == chunks@.len() * chunk_size,
            chunk_size_sum(chunks@, chunks@.len()) == offset,
            forall|k: int|
                0 <= k < chunks@.len() ==> {
                    &&& (#[trigger] chunks@[k]).number == k + 1
                    &&& chunks@[k].size == planned_chunk_size(
                        total_size as nat,
                        chunk_size as nat,
                        k as nat,
                    )
                    &&& chunks@[k].size > 0
                    &&& chunks@[k].path@ == join_path(
                        output_dir@,
                        chunk_file_name_of(base@, (k + 1) as nat, extension@, digits as nat),
                    )
                },
        decreases total_size - offset,
    {
        let ghost k = chunks@.len();
        proof {
            lemma_chunk_index_bound(k as nat, chunk_size as nat, total_size as nat);
        }
        let remaining = total_size - offset;
        let size = if remaining < chunk_size {
            remaining
        } else {
            chunk_size
        };
        let name = chunk_file_name(base, number, extension, digits);
        let path = path_join(output_dir, name.as_str());
        let ghost before = chunks@;
        chunks.push(ChunkInfo { path, size, number });
        proof {
            assert(chunks@.drop_last() =~= before);
            assert forall|j: int| 0 <= j < before.len() implies #[trigger] chunks@[j] == before[j] by {}
            lemma_chunk_size_sum_prefix(chunks@, before, before.len());
            assert(chunk_size_sum(chunks@, chunks@.len()) == chunk_size_sum(before, before.len()) + size);
            if offset + size < total_size {
                assert(size == chunk_size);
                assert((k + 1) * chunk_size == k * chunk_size + chunk_size) by (nonlinear_arith);
            }
        }
        offset = offset + size;
        number = number + 1;
    }
    chunks
}

/// Plans the split of a file: the configuration checks, given whether the input exists and
/// is a regular file, then the chunks of its `total_size` bytes inside `output_dir`, named
/// after the input's `file_name`. The caller resolves the paths and writes the chunks.
pub fn split_file(
    config: &SplitConfig,
    input_exists: bool,
    input_is_file: bool,
    input_path: &str,
    output_dir: &str,
    file_name: Option<&str>,
    total_size: u64,
) -> (result: Result<SplitResult, SplitError>)
    requires
        config.chunk_size > 0 ==> total_size / config.chunk_size + 2 <= usize::MAX,
    ensures
        match config_problem(*config, input_exists, input_is_file) {
            Some(problem) => result matches Err(e) && split_error_is(e, problem),
            None => if total_size == 0 {
                result matches Err(e) && e is EmptyInput
            } else {
                result matches Ok(r) && {
                    let parts = filename_parts(
                        match config.prefix {
                            Some(p) => Some(p@),
                            None => None,
                        },
                        match file_name {
                            Some(n) => Some(n@),
                            None => None,
                        },
                    );
                    &&& r.input_path@ == input_path@
                    &&& r.output_dir@ == output_dir@
                    &&& r.chunk_size == config.chunk_size
                    &&& r.total_size == total_size
                    &&& chunks_planned(
                        r.chunks@,
                        output_dir@,
                        parts.0,
                        parts.1,
                        config.digits as nat,
                        config.chunk_size as nat,
                        total_size as nat,
                    )
                }
            },
        },
{
    match validate_config(config, input_exists, input_is_file) {
        Err(e) => {
            return Err(e);
        },
        Ok(()) => {},
    }
    let (base, extension) = determine_filename_parts(config, file_name);
    match check_input_size(total_size) {
        Err(e) => {
            return Err(e);
        },
        Ok(()) => {},
    }
    let chunks = plan_chunks(
        output_dir,
        base.as_str(),
        extension.as_str(),
        config.digits,
        config.chunk_size,
        total_size,
    );
    Ok(SplitResult {
        input_path: input_path.to_owned(),
        output_dir: output_dir.to_owned(),
        chunk_size: config.chunk_size,
        chunks,
        total_size,
    })
}

/// The text with leading and trailing Unicode white space removed (`str::trim`).
pub uninterp spec fn trimmed(text: Seq<char>) -> Seq<char>;

/// The Unicode upper-case form of a text (`str::to_uppercase`).
pub uninterp spec fn uppercased(text: Seq<char>) -> Seq<char>;

/// Removes leading and trailing white space.
///
/// Calls `str::trim`; the contract claims only that the result is the named trimming of the
/// argument, not which characters count as white space.
#[verifier::external_body]
fn trim_text(text: &str) -> (t: &str)
    ensures
        t@ == trimmed(text@),
{
    text.trim()
}

/// Converts a text to upper case.
///
/// Calls `str::to_uppercase`; the contract claims only that the result is the named upper-case
/// form of the argument, not the Unicode case mapping itself.
#[verifier::external_body]
fn to_upper_case(text: &str) -> (u: String)
    ensures
        u@ == uppercased(text@),
{
    text.to_uppercase()
}

/// Why a size string could not be read.
#[derive(Debug, PartialEq, Eq)]
pub enum SizeStringError {
    /// Nothing is left after trimming.
    Empty,
    /// The leading digits do not form a `u64`; the digits are given.
    InvalidNumber(String),
    /// The text after the digits is not a known unit; the unit is given.
    InvalidUnit(String),
}

/// What a size text reads as.
pub enum SizeReading {
    /// A number of bytes.
    Bytes(nat),
    /// The text is empty.
    Empty,
    /// The leading digits, which do not form a `u64`.
    BadNumber(Seq<char>),
    /// The unknown unit.
    BadUnit(Seq<char>),
}

/// Whether a character is an ASCII digit.
pub open spec fn is_digit_char(c: char) -> bool {
    '0' <= c <= '9'
}

/// The number of leading ASCII digits of a text.
pub open spec fn leading_digits(text: Seq<char>) -> nat
    decreases text.len(),
{
    if text.len() == 0 || !is_digit_char(text[0]) {
        0
    } else {
        1 + leading_digits(text.drop_first())
    }
}

/// The value of a run of ASCII digit characters.
pub open spec fn digit_chars_value(digits: Seq<char>) -> nat
    decreases digits.len(),
{
    if digits.len() == 0 {
        0
    } else {
        digit_chars_value(digits.drop_last()) * 10 + ((digits.last() as nat) - 48) as nat
    }
}

/// The byte multiplier of an upper-case unit.
pub open spec fn unit_multiplier(unit: Seq<char>) -> Option<nat> {
    if unit == ""@ || unit == "B"@ {
        Some(1)
    } else if unit == "K"@ || unit == "KB"@ {
        Some(1024)
    } else if unit == "M"@ || unit == "MB"@ {
        Some(1024 * 1024)
    } else if unit == "G"@ || unit == "GB"@ {
        Some(1024 * 1024 * 1024)
    } else if unit == "T"@ || unit == "TB"@ {
        Some(1024 * 1024 * 1024 * 1024)
    } else {
        None
    }
}

/// What an upper-case, trimmed size text reads as: its leading digits times its unit.
pub open spec fn size_reading(text: Seq<char>) -> SizeReading {
    if text.len() == 0 {
        SizeReading::Empty
    } else {
        let split = leading_digits(text);
        let digits = text.subrange(0, split as int);
        let unit = text.subrange(split as int, text.len() as int);
        if digits.len() == 0 || digit_chars_value(digits) > u64::MAX {
            SizeReading::BadNumber(digits)
        } else {
            match unit_multiplier(unit) {
                Some(m) => SizeReading::Bytes(digit_chars_value(digits) * m),
                None => SizeReading::BadUnit(unit),
            }
        }
    }
}

/// The result of reading a size is what the text reads as.
pub open spec fn size_result_is(result: Result<u64, SizeStringError>, reading: SizeReading) -> bool {
    match reading {
        SizeReading::Bytes(n) => result == Ok::<u64, SizeStringError>(n as u64),
        SizeReading::Empty => result matches Err(SizeStringError::Empty),
        SizeReading::BadNumber(d) => result matches Err(SizeStringError::InvalidNumber(s)) && s@ == d,
        SizeReading::BadUnit(u) => result matches Err(SizeStringError::InvalidUnit(s)) && s@ == u,
    }
}

/// The reading overflows a `u64`.
pub open spec fn size_overflows(reading: SizeReading) -> bool {
    reading matches SizeReading::Bytes(n) && n > u64::MAX
}

/// The number of leading ASCII digits of a text, and their value when it fits in a `u64`.
fn read_leading_digits(text: &str) -> (read: (usize, Option<u64>))
    ensures
        read.0 == leading_digits(text@),
        read.0 <= text@.len(),
        match read.1 {
            Some(v) => v == digit_chars_value(text@.subrange(0, read.0 as int)),
            None => digit_chars_value(text@.subrange(0, read.0 as int)) > u64::MAX,
        },
{
    let len = text.unicode_len();
    let mut split: usize = 0;
    let mut value: u64 = 0;
    let mut overflowed = false;
    proof {
        assert(text@.subrange(0, 0) =~= Seq::<char>::empty());
    }
    while split < len && '0' <= text.get_char(split) && text.get_char(split) <= '9'
        invariant
            len == text@.len(),
            split <= len,
            forall|j: int| 0 <= j < split ==> is_digit_char(#[trigger] text@[j]),
            !overflowed ==> value == digit_chars_value(text@.subrange(0, split as int)),
            overflowed ==> digit_chars_value(text@.subrange(0, split as int)) > u64::MAX,
        decreases len - split,
    {
        let c = text.get_char(split);
        let d = (c as u32 - 48) as u64;
        proof {
            let next = text@.subrange(0, split + 1);
            assert(next.drop_last() =~= text@.subrange(0, split as int));
            assert(next.last() == c);
        }
        if !overflowed {
            if value > (u64::MAX - d) / 10 {
                overflowed = true;
            } else {
                value = value * 10 + d;
            }
        }
        proof {
            lemma_digit_value_grows(text@.subrange(0, split + 1));
        }
        split = split + 1;
    }
    proof {
        lemma_leading_digits_is(text@, split as nat);
    }
    if overflowed {
        (split, None)
    } else {
        (split, Some(value))
    }
}

/// The byte multiplier of an upper-case unit.
fn unit_multiplier_of(unit: &str) -> (multiplier: Option<u64>)
    ensures
        match multiplier {
            Some(m) => unit_multiplier(unit@) == Some(m as nat),
            None => unit_multiplier(unit@) is None,
        },
{
    proof {
        reveal_strlit("");
        reveal_strlit("B");
        reveal_strlit("K");
        reveal_strlit("KB");
        reveal_strlit("M");
        reveal_strlit("MB");
        reveal_strlit("G");
        reveal_strlit("GB");
        reveal_strlit("T");
        reveal_strlit("TB");
    }
    if str_equal(unit, "") || str_equal(unit, "B") {
        Some(1)
    } else if str_equal(unit, "K") || str_equal(unit, "KB") {
        Some(1024)
    } else if str_equal(unit, "M") || str_equal(unit, "MB") {
        Some(1024 * 1024)
    } else if str_equal(unit, "G") || str_equal(unit, "GB") {
        Some(1024 * 1024 * 1024)
    } else if str_equal(unit, "T") || str_equal(unit, "TB") {
        Some(1024 * 1024 * 1024 * 1024)
    } else {
        None
    }
}

/// Reads a trimmed, upper-case size text like `1M`, `500K` or `2G` as a number of bytes.
pub fn parse_size_units(text: &str) -> (result: Result<u64, SizeStringError>)
    requires
        !size_overflows(size_reading(text@)),
    ensures
        size_result_is(result, size_reading(text@)),
{
    let len = text.unicode_len();
    if len == 0 {
        return Err(SizeStringError::Empty);
    }
    let (split, read) = read_leading_digits(text);
    let digits = text.substring_char(0, split);
    let unit = text.substring_char(split, len);
    let value = match read {
        Some(v) => v,
        None => {
            return Err(SizeStringError::InvalidNumber(digits.to_owned()));
        },
    };
    if split == 0 {
        return Err(SizeStringError::InvalidNumber(digits.to_owned()));
    }
    match unit_multiplier_of(unit) {
        Some(multiplier) => Ok(value * multiplier),
        None => Err(SizeStringError::InvalidUnit(unit.to_owned())),
    }
}

/// A digit value grows by at least its prefix's value.
proof fn lemma_digit_value_grows(digits: Seq<char>)
    requires
        digits.len() > 0,
    ensures
        digit_chars_value(digits) >= digit_chars_value(digits.drop_last()),
{
}

/// The digit run that the scan stops at is the leading run.
proof fn lemma_leading_digits_is(text: Seq<char>, split: nat)
    requires
        split <= text.len(),
        forall|j: int| 0 <= j < split ==> is_digit_char(#[trigger] text[j]),
        split == text.len() || !is_digit_char(text[split as int]),
    ensures
        leading_digits(text) == split,
    decreases split,
{
    if split > 0 {
        lemma_leading_digits_is(text.drop_first(), (split - 1) as nat);
    }
}

/// A size text made of a run of digits and a unit reads as the digits' value times the unit's
/// power of 1024: `B` or no unit 1, `K`/`KB` 2^10, `M`/`MB` 2^20, `G`/`GB` 2^30, `T`/`TB` 2^40.
pub proof fn lemma_size_units_scale(digits: Seq<char>, unit: Seq<char>)
    requires
        digits.len() > 0,
        forall|j: int| 0 <= j < digits.len() ==> is_digit_char(#[trigger] digits[j]),
        digit_chars_value(digits) <= u64::MAX,
    ensures
        (unit == ""@ || unit == "B"@) ==> size_reading(digits + unit) == SizeReading::Bytes(
            digit_chars_value(digits),
        ),
        (unit == "K"@ || unit == "KB"@) ==> size_reading(digits + unit) == SizeReading::Bytes(
            digit_chars_value(digits) * 1024,
        ),
        (unit == "M"@ || unit == "MB"@) ==> size_reading(digits + unit) == SizeReading::Bytes(
            digit_chars_value(digits) * 1048576,
        ),
        (unit == "G"@ || unit == "GB"@) ==> size_reading(digits + unit) == SizeReading::Bytes(
            digit_chars_value(digits) * 1073741824,
        ),
        (unit == "T"@ || unit == "TB"@) ==> size_reading(digits + unit) == SizeReading::Bytes(
            digit_chars_value(digits) * 1099511627776,
        ),
{
    reveal_strlit("");
    reveal_strlit("B");
    reveal_strlit("K");
    reveal_strlit("KB");
    reveal_strlit("M");
    reveal_strlit("MB");
    reveal_strlit("G");
    reveal_strlit("GB");
    reveal_strlit("T");
    reveal_strlit("TB");
    let text = digits + unit;
    if unit.len() > 0 && !is_digit_char(unit[0]) {
        assert(text[digits.len() as int] == unit[0]);
    }
    if unit.len() == 0 || !is_digit_char(unit[0]) {
        assert forall|j: int| 0 <= j < digits.len() implies is_digit_char(#[trigger] text[j]) by {
            assert(text[j] == digits[j]);
        }
        lemma_leading_digits_is(text, digits.len());
        assert(text.subrange(0, digits.len() as int) =~= digits);
        assert(text.subrange(digits.len() as int, text.len() as int) =~= unit);
    }
}

/// Parses a size string like `1M`, `500K` or `2G` into bytes: trimmed, upper-cased, then its
/// leading digits times its unit (`B`, `K`, `M`, `G`, `T`, optionally followed by `B`).
pub fn parse_size_string(size_str: &str) -> (result: Result<u64, SizeStringError>)
    requires
        !size_overflows(size_reading(uppercased(trimmed(size_str@)))),
    ensures
        size_result_is(result, size_reading(uppercased(trimmed(size_str@)))),
{
    let trimmed_text = trim_text(size_str);
    let upper = to_upper_case(trimmed_text);
    parse_size_units(upper.as_str())
}

/// Parses a size string as [`parse_size_string`] does, or gives `None` when the size it names
/// does not fit in a `u64`.
pub fn try_parse_size_string(size_str: &str) -> (result: Option<Result<u64, SizeStringError>>)
    ensures
        match result {
            Some(r) => !size_overflows(size_reading(uppercased(trimmed(size_str@)))) && size_result_is(
                r,
                size_reading(uppercased(trimmed(size_str@))),
            ),
            None => size_overflows(size_reading(uppercased(trimmed(size_str@)))),
        },
{
    let trimmed_text = trim_text(size_str);
    let upper = to_upper_case(trimmed_text);
    if size_overflows_exec(upper.as_str()) {
        return None;
    }
    Some(parse_size_string(size_str))
}

/// Whether a trimmed, upper-case size text names more bytes than a `u64` holds.
fn size_overflows_exec(text: &str) -> (overflows: bool)
    ensures
        overflows == size_overflows(size_reading(text@)),
{
    let len = text.unicode_len();
    if len == 0 {
        return false;
    }
    let (split, read) = read_leading_digits(text);
    let value = match read {
        Some(v) => v,
        None => {
            return false;
        },
    };
    if split == 0 {
        return false;
    }
    let unit = text.substring_char(split, len);
    match unit_multiplier_of(unit) {
        Some(multiplier) => value.checked_mul(multiplier).is_none(),
        None => false,
    }
}

} // verus!
