//! Records of printer tests: what each attempt logs, the names of test
//! files, and the first bytes of a printed document.
use vstd::prelude::*;
use vstd::string::StringExecFns;
use vstd::utf8::{valid_utf8, decode_utf8};
use std::time::{Duration, SystemTime, SystemTimeError};
use crate::strings::{push_char, chars_of, string_from_chars, texts};
use crate::text::{decimal, decimal_string, trimmed, trim_text, safe_name, safe_file_name, run_len, lemma_run_len};

verus! {

#[verifier::external_type_specification]
#[verifier::external_body]
pub struct ExSystemTime(SystemTime);

#[verifier::external_type_specification]
#[verifier::external_body]
pub struct ExSystemTimeError(SystemTimeError);

/// The outcome of one printer test, as it is shown and logged.
#[derive(Debug, Clone, PartialEq, Eq)]
pub struct PrinterTestResult {
    pub created_at: String,
    pub test_type: String,
    pub method: String,
    pub printer_name: String,
    pub file_path: String,
    pub file_size: u64,
    pub header: Option<String>,
    pub success: bool,
    pub job_id: Option<u64>,
    pub message: String,
    pub error: Option<String>,
}

/// A test outcome reported by the user interface.
#[derive(Debug, Clone, PartialEq, Eq)]
pub struct PrinterLogPayload {
    pub test_type: String,
    pub method: String,
    pub printer_name: Option<String>,
    pub file_path: Option<String>,
    pub file_size: Option<u64>,
    pub header: Option<String>,
    pub success: bool,
    pub job_id: Option<u64>,
    pub message: String,
    pub error: Option<String>,
}

/// The text of an optional string, empty when absent.
pub open spec fn text_or_empty(s: Option<String>) -> Seq<char> {
    match s {
        Some(t) => t@,
        None => Seq::empty(),
    }
}

/// The characters of an optional string.
pub open spec fn opt_view(s: Option<String>) -> Option<Seq<char>> {
    match s {
        Some(t) => Some(t@),
        None => None,
    }
}

/// `created_at` is the decimal notation of some instant in seconds.
pub open spec fn is_timestamp_text(s: Seq<char>) -> bool {
    exists|t: u64| s == decimal(t as nat)
}

/// The current time (`SystemTime::now`). Nothing is claimed of the value:
/// it is the machine's clock.
#[verifier::external_body]
fn system_time_now() -> SystemTime {
    SystemTime::now()
}

/// The time elapsed from the Unix epoch to `t`
/// (`SystemTime::duration_since(UNIX_EPOCH)`); an error when `t` lies
/// before the epoch. Nothing is claimed of the value.
#[verifier::external_body]
fn since_unix_epoch(t: &SystemTime) -> Result<Duration, SystemTimeError> {
    t.duration_since(std::time::UNIX_EPOCH)
}

/// The whole seconds of a duration (`Duration::as_secs`). Verus sees no
/// contents of a `Duration`, so nothing is claimed of the value.
#[verifier::external_body]
fn whole_seconds(d: &Duration) -> u64 {
    d.as_secs()
}

/// Seconds since the Unix epoch by the machine's clock, or 0 when the clock
/// reads a time before the epoch.
pub fn unix_timestamp() -> u64 {
    let now = system_time_now();
    match since_unix_epoch(&now) {
        Ok(d) => whole_seconds(&d),
        Err(_) => 0,
    }
}

/// The name of a test file: `prefix-timestamp.extension`.
pub open spec fn test_file_name(prefix: Seq<char>, timestamp: nat, extension: Seq<char>) -> Seq<
    char,
> {
    prefix + seq!['-'] + decimal(timestamp) + seq!['.'] + extension
}

/// The name of a new test file, stamped with the current time in seconds:
/// `prefix-timestamp.extension`.
pub fn printer_test_path(prefix: &str, extension: &str) -> (r: String)
    ensures
        exists|t: u64| r@ == test_file_name(prefix@, t as nat, extension@),
{
    let stamp = unix_timestamp();
    let mut name = String::from_str(prefix);
    push_char(&mut name, '-');
    name.append(decimal_string(stamp).as_str());
    push_char(&mut name, '.');
    name.append(extension);
    assert(name@ =~= test_file_name(prefix@, stamp as nat, extension@));
    name
}

fn copy_text(s: &Option<String>) -> (r: String)
    ensures
        r@ == text_or_empty(*s),
{
    match s {
        Some(t) => t.clone(),
        None => String::new(),
    }
}

/// The record of a test outcome reported by the user interface, stamped
/// with the current time; absent names, paths and sizes become empty or 0.
pub fn record_printer_log(payload: PrinterLogPayload) -> (r: PrinterTestResult)
    ensures
        is_timestamp_text(r.created_at@),
        r.test_type == payload.test_type,
        r.method == payload.method,
        r.printer_name@ == text_or_empty(payload.printer_name),
        r.file_path@ == text_or_empty(payload.file_path),
        r.file_size == (match payload.file_size {
            Some(n) => n,
            None => 0,
        }),
        r.header == payload.header,
        r.success == payload.success,
        r.job_id == payload.job_id,
        r.message == payload.message,
        r.error == payload.error,
{
    let stamp = unix_timestamp();
    let created_at = decimal_string(stamp);
    let printer_name = copy_text(&payload.printer_name);
    let file_path = copy_text(&payload.file_path);
    let file_size = match payload.file_size {
        Some(n) => n,
        None => 0,
    };
    PrinterTestResult {
        created_at,
        test_type: payload.test_type,
        method: payload.method,
        printer_name,
        file_path,
        file_size,
        header: payload.header,
        success: payload.success,
        job_id: payload.job_id,
        message: payload.message,
        error: payload.error,
    }
}

/// A test record stamped with the current time and without a job number.
pub fn printer_result(
    test_type: &str,
    method: &str,
    printer_name: &str,
    file_path: &str,
    file_size: u64,
    header: Option<String>,
    success: bool,
    message: &str,
    error: Option<String>,
) -> (r: PrinterTestResult)
    ensures
        is_timestamp_text(r.created_at@),
        r.test_type@ == test_type@,
        r.method@ == method@,
        r.printer_name@ == printer_name@,
        r.file_path@ == file_path@,
        r.file_size == file_size,
        r.header == header,
        r.success == success,
        r.job_id is None,
        r.message@ == message@,
        r.error == error,
{
    let stamp = unix_timestamp();
    PrinterTestResult {
        created_at: decimal_string(stamp),
        test_type: String::from_str(test_type),
        method: String::from_str(method),
        printer_name: String::from_str(printer_name),
        file_path: String::from_str(file_path),
        file_size,
        header,
        success,
        job_id: None,
        message: String::from_str(message),
        error,
    }
}

/// The message of a record whose log line could not be written.
pub open spec fn message_with_log_failure(message: Seq<char>, failure: Seq<char>) -> Seq<char> {
    message + " Ademas fallo guardar log: "@ + failure
}

/// The error of a record whose log line could not be written.
pub open spec fn error_with_log_failure(error: Option<Seq<char>>, failure: Seq<char>) -> Seq<char> {
    match error {
        Some(existing) => existing + " | Log: "@ + failure,
        None => failure,
    }
}

/// A record after an attempt to append it to the test log: unchanged when
/// the line was written; otherwise marked as failed, with the log failure
/// added to its message and to its error.
pub fn append_and_return_log(result: PrinterTestResult, log_outcome: Result<(), String>) -> (r:
    PrinterTestResult)
    ensures
        log_outcome is Ok ==> r == result,
        log_outcome matches Err(failure) ==> {
            &&& !r.success
            &&& r.message@ == message_with_log_failure(result.message@, failure@)
            &&& r.error matches Some(e) && e@ == error_with_log_failure(
                opt_view(result.error),
                failure@,
            )
            &&& r.created_at == result.created_at
            &&& r.test_type == result.test_type
            &&& r.method == result.method
            &&& r.printer_name == result.printer_name
            &&& r.file_path == result.file_path
            &&& r.file_size == result.file_size
            &&& r.header == result.header
            &&& r.job_id == result.job_id
        },
{
    match log_outcome {
        Ok(()) => result,
        Err(failure) => {
            let mut message = result.message;
            message.append(" Ademas fallo guardar log: ");
            message.append(failure.as_str());
            let error = match result.error {
                Some(existing) => {
                    let mut e = existing;
                    e.append(" | Log: ");
                    e.append(failure.as_str());
                    e
                },
                None => failure,
            };
            PrinterTestResult {
                created_at: result.created_at,
                test_type: result.test_type,
                method: result.method,
                printer_name: result.printer_name,
                file_path: result.file_path,
                file_size: result.file_size,
                header: result.header,
                success: false,
                job_id: result.job_id,
                message,
                error: Some(error),
            }
        },
    }
}

/// A record after an attempt to append it to the test log, for the tests
/// that keep their outcome: the log failure only extends the message.
pub fn note_log_failure(result: PrinterTestResult, log_outcome: Result<(), String>) -> (r:
    PrinterTestResult)
    ensures
        log_outcome is Ok ==> r == result,
        log_outcome matches Err(failure) ==> {
            &&& r.message@ == message_with_log_failure(result.message@, failure@)
            &&& r.success == result.success
            &&& r.error == result.error
            &&& r.created_at == result.created_at
            &&& r.test_type == result.test_type
            &&& r.method == result.method
            &&& r.printer_name == result.printer_name
            &&& r.file_path == result.file_path
            &&& r.file_size == result.file_size
            &&& r.header == result.header
            &&& r.job_id == result.job_id
        },
{
    match log_outcome {
        Ok(()) => result,
        Err(failure) => {
            let mut r = result;
            r.message.append(" Ademas fallo guardar log: ");
            r.message.append(failure.as_str());
            r
        },
    }
}

/// What `String::from_utf8_lossy` makes of a byte sequence.
pub uninterp spec fn lossy_utf8(bytes: Seq<u8>) -> Seq<char>;

/// `String::from_utf8_lossy`, made an owned `String`. The result is named
/// by `lossy_utf8`; as the standard library documents, valid UTF-8 is
/// decoded unchanged. How invalid sequences are replaced is left unsaid.
#[verifier::external_body]
fn text_from_utf8_lossy(bytes: &[u8]) -> (r: String)
    ensures
        r@ == lossy_utf8(bytes@),
        valid_utf8(bytes@) ==> r@ == decode_utf8(bytes@),
{
    String::from_utf8_lossy(bytes).into_owned()
}

/// At most the first four bytes of `bytes`.
pub open spec fn header_bytes(bytes: Seq<u8>) -> Seq<u8> {
    if bytes.len() <= 4 {
        bytes
    } else {
        bytes.take(4)
    }
}

/// The first (at most four) bytes of a document read as text, the way a
/// file signature such as `%PDF` is shown; `None` for an empty document.
pub fn file_header(bytes: &[u8]) -> (r: Option<String>)
    ensures
        bytes@.len() == 0 <==> r is None,
        r matches Some(h) ==> h@ == lossy_utf8(header_bytes(bytes@)),
        r matches Some(h) ==> (valid_utf8(header_bytes(bytes@)) ==> h@ == decode_utf8(
            header_bytes(bytes@),
        )),
{
    if bytes.len() == 0 {
        return None;
    }
    let n = if bytes.len() < 4 {
        bytes.len()
    } else {
        4
    };
    let mut head: Vec<u8> = Vec::new();
    let mut i: usize = 0;
    while i < n
        invariant
            i <= n <= bytes.len(),
            head@ == bytes@.take(i as int),
        decreases n - i,
    {
        head.push(bytes[i]);
        assert(bytes@.take(i + 1) =~= bytes@.take(i as int).push(bytes@[i as int]));
        i += 1;
    }
    assert(head@ =~= header_bytes(bytes@));
    Some(text_from_utf8_lossy(head.as_slice()))
}

} // verus!

verus! {

/// The name of the saved PDF test document: the given name made safe, or
/// a new time-stamped `test-pdf-….pdf` when the given name is blank.
pub fn test_pdf_name(file_name: &str) -> (r: String)
    ensures
        trimmed(file_name@).len() == 0 ==> exists|t: u64|
            r@ == test_file_name("test-pdf"@, t as nat, "pdf"@),
        trimmed(file_name@).len() != 0 ==> r@ == safe_name(file_name@, "test-pdf.pdf"@),
{
    if chars_of(trim_text(file_name).as_str()).len() == 0 {
        printer_test_path("test-pdf", "pdf")
    } else {
        safe_file_name(file_name, "test-pdf.pdf")
    }
}

pub open spec fn not_newline() -> spec_fn(char) -> bool {
    |c: char| c != '\n'
}

/// `line` without one final carriage return.
pub open spec fn without_cr(line: Seq<char>) -> Seq<char> {
    if line.len() > 0 && line.last() == '\r' {
        line.drop_last()
    } else {
        line
    }
}

/// The lines of a text as `str::lines` yields them: split at line feeds,
/// a carriage return just before a line feed dropped, and no empty line
/// after a final line feed.
pub open spec fn text_lines(s: Seq<char>) -> Seq<Seq<char>>
    decreases s.len(),
{
    if s.len() == 0 {
        seq![]
    } else {
        let k = run_len(s, not_newline());
        if k >= s.len() {
            seq![s]
        } else {
            seq![without_cr(s.take(k as int))] + text_lines(s.skip(k as int + 1))
        }
    }
}

/// The text of a log made of `records`, one per line.
pub open spec fn log_text(records: Seq<Seq<char>>) -> Seq<char>
    decreases records.len(),
{
    if records.len() == 0 {
        seq![]
    } else {
        records[0] + seq!['\n'] + log_text(records.drop_first())
    }
}

/// A record that can stand on one log line: no line feed inside, and no
/// carriage return at its end.
pub open spec fn is_single_line(record: Seq<char>) -> bool {
    (forall|i: int| 0 <= i < record.len() ==> #[trigger] record[i] != '\n') && !(record.len() > 0
        && record.last() == '\r')
}

/// The lines of a log text, for reading the records back.
pub fn log_lines(content: &str) -> (r: Vec<String>)
    ensures
        texts(r@) == text_lines(content@),
{
    let chars = chars_of(content);
    let mut lines: Vec<String> = Vec::new();
    let mut start: usize = 0;
    proof {
        assert(chars@.skip(0) =~= chars@);
        assert(texts(lines@) + text_lines(chars@) =~= text_lines(chars@));
    }
    while start < chars.len()
        invariant
            start <= chars.len(),
            text_lines(chars@) == texts(lines@) + text_lines(chars@.skip(start as int)),
        decreases chars.len() - start,
    {
        let ghost rest = chars@.skip(start as int);
        let mut end = start;
        while end < chars.len() && chars[end] != '\n'
            invariant
                start <= end <= chars.len(),
                forall|j: int| start <= j < end ==> #[trigger] chars@[j] != '\n',
            decreases chars.len() - end,
        {
            end += 1;
        }
        proof {
            assert forall|j: int| 0 <= j < end - start implies #[trigger] not_newline()(rest[j]) by {
                assert(rest[j] == chars@[start + j]);
            }
            if end < chars.len() {
                assert(rest[end - start] == chars@[end as int]);
            }
            lemma_run_len(rest, not_newline(), end - start);
            assert(rest.take(end - start) =~= chars@.subrange(start as int, end as int));
        }
        let stop = if end > start && chars[end - 1] == '\r' && end < chars.len() {
            end - 1
        } else {
            end
        };
        lines.push(string_from_chars(&chars, start, stop));
        proof {
            let line = chars@.subrange(start as int, end as int);
            if end < chars.len() {
                assert(chars@.subrange(start as int, stop as int) =~= without_cr(line));
                assert(rest.skip(end - start + 1) =~= chars@.skip(end + 1));
            } else {
                assert(line =~= rest);
                assert(chars@.subrange(start as int, stop as int) =~= rest);
                assert(chars@.skip(end as int) =~= Seq::<char>::empty());
            }
            assert(texts(lines@) =~= texts(lines@.drop_last()).push(lines@.last()@));
        }
        start = if end < chars.len() {
            end + 1
        } else {
            end
        };
    }
    proof {
        assert(chars@.skip(start as int) =~= Seq::<char>::empty());
        assert(texts(lines@) + Seq::<Seq<char>>::empty() =~= texts(lines@));
    }
    lines
}

/// One line of the test log: a serialised record and a line feed.
pub fn log_entry(record: &str) -> (r: String)
    ensures
        r@ == record@.push('\n'),
{
    let mut line = String::from_str(record);
    push_char(&mut line, '\n');
    line
}

/// Reading the log gives back what was written: the lines of a log made of
/// single-line records are those records, in order.
pub proof fn lemma_log_reads_back(records: Seq<Seq<char>>)
    requires
        forall|i: int| 0 <= i < records.len() ==> is_single_line(#[trigger] records[i]),
    ensures
        text_lines(log_text(records)) == records,
    decreases records.len(),
{
    if records.len() > 0 {
        let first = records[0];
        let rest = records.drop_first();
        assert forall|i: int| 0 <= i < rest.len() implies is_single_line(#[trigger] rest[i]) by {
            assert(rest[i] == records[i + 1]);
        }
        lemma_log_reads_back(rest);
        let s = log_text(records);
        assert(is_single_line(records[0]));
        assert forall|j: int| 0 <= j < first.len() implies #[trigger] not_newline()(s[j]) by {
            assert(s[j] == first[j]);
        }
        assert(s[first.len() as int] == '\n');
        lemma_run_len(s, not_newline(), first.len() as int);
        assert(s.take(first.len() as int) =~= first);
        assert(s.skip(first.len() as int + 1) =~= log_text(rest));
        assert(seq![first] + rest =~= records);
    } else {
        assert(records =~= Seq::<Seq<char>>::empty());
    }
}

} // verus!
