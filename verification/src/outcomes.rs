//! How the outcome of each printing test becomes the record that is shown
//! to the user and logged. The system calls (saving files, spooling jobs,
//! starting programs) happen outside; their outcomes come in as values.
use vstd::prelude::*;
use vstd::string::StringExecFns;
use crate::report::{PrinterTestResult, is_timestamp_text, unix_timestamp, opt_view};
use crate::text::{decimal, decimal_string, trimmed, trim_text};
use crate::strings::chars_of;

verus! {

/// The state of a printer as the printer list shows it.
#[derive(Debug, Clone, PartialEq, Eq)]
pub enum PrinterStatus {
    Ready,
    Offline,
    Paused,
    Printing,
    Unknown,
}

/// The label of a printer state.
pub open spec fn state_label(state: PrinterStatus) -> Seq<char> {
    match state {
        PrinterStatus::Ready => "ready"@,
        PrinterStatus::Offline => "offline"@,
        PrinterStatus::Paused => "paused"@,
        PrinterStatus::Printing => "printing"@,
        PrinterStatus::Unknown => "unknown"@,
    }
}

/// See [`state_label`].
pub fn printer_state_label(state: &PrinterStatus) -> (r: String)
    ensures
        r@ == state_label(*state),
{
    match state {
        PrinterStatus::Ready => String::from_str("ready"),
        PrinterStatus::Offline => String::from_str("offline"),
        PrinterStatus::Paused => String::from_str("paused"),
        PrinterStatus::Printing => String::from_str("printing"),
        PrinterStatus::Unknown => String::from_str("unknown"),
    }
}

/// A record seen without its time stamp: test type, method, printer, file
/// path, file size, header, success, job number, message and error.
pub type RecordView = (
    Seq<char>,
    Seq<char>,
    Seq<char>,
    Seq<char>,
    u64,
    Option<Seq<char>>,
    bool,
    Option<u64>,
    Seq<char>,
    Option<Seq<char>>,
);

pub open spec fn record_view(r: PrinterTestResult) -> RecordView {
    (
        r.test_type@,
        r.method@,
        r.printer_name@,
        r.file_path@,
        r.file_size,
        opt_view(r.header),
        r.success,
        r.job_id,
        r.message@,
        opt_view(r.error),
    )
}

fn stamped(
    test_type: String,
    method: String,
    printer_name: String,
    file_path: String,
    file_size: u64,
    header: Option<String>,
    success: bool,
    job_id: Option<u64>,
    message: String,
    error: Option<String>,
) -> (r: PrinterTestResult)
    ensures
        is_timestamp_text(r.created_at@),
        record_view(r) == (
            test_type@,
            method@,
            printer_name@,
            file_path@,
            file_size,
            opt_view(header),
            success,
            job_id,
            message@,
            opt_view(error),
        ),
{
    let stamp = unix_timestamp();
    PrinterTestResult {
        created_at: decimal_string(stamp),
        test_type,
        method,
        printer_name,
        file_path,
        file_size,
        header,
        success,
        job_id,
        message,
        error,
    }
}

/// What became of the ESC/POS test ticket.
#[derive(Debug, Clone, PartialEq, Eq)]
pub enum EscposTestOutcome {
    /// The ticket file could not be decoded or written.
    NotBuilt { error: String },
    /// The spooler accepted the raw job.
    Sent { file_path: String, file_size: u64, job_id: u64 },
    /// The spooler refused the raw job.
    NotSent { file_path: String, file_size: u64, error: String },
}

pub open spec fn escpos_test_method() -> Seq<char> {
    "tk-raw.txt Base64 -> archivo .escpos -> rust-printers RAW -> WinSpool"@
}

/// The record of an ESC/POS test for each outcome.
pub open spec fn escpos_test_record(printer_name: Seq<char>, outcome: EscposTestOutcome) -> RecordView {
    match outcome {
        EscposTestOutcome::NotBuilt { error } => (
            "escpos"@,
            escpos_test_method(),
            printer_name,
            Seq::empty(),
            0,
            None,
            false,
            None,
            "No se pudo decodificar/generar el archivo ESC/POS desde tk-raw.txt."@,
            Some(error@),
        ),
        EscposTestOutcome::Sent { file_path, file_size, job_id } => (
            "escpos"@,
            escpos_test_method(),
            printer_name,
            file_path@,
            file_size,
            None,
            true,
            Some(job_id),
            "Ticket tk-raw ESC/POS enviado como RAW. Valida fisicamente si salio el formato Malova."@,
            None,
        ),
        EscposTestOutcome::NotSent { file_path, file_size, error } => (
            "escpos"@,
            escpos_test_method(),
            printer_name,
            file_path@,
            file_size,
            None,
            false,
            None,
            "No se pudo enviar el ticket tk-raw ESC/POS al spooler."@,
            Some(error@),
        ),
    }
}

/// The record of an ESC/POS test, stamped with the current time.
pub fn escpos_test_result(printer_name: String, outcome: EscposTestOutcome) -> (r:
    PrinterTestResult)
    ensures
        is_timestamp_text(r.created_at@),
        record_view(r) == escpos_test_record(printer_name@, outcome),
{
    let method = String::from_str(
        "tk-raw.txt Base64 -> archivo .escpos -> rust-printers RAW -> WinSpool",
    );
    let test_type = String::from_str("escpos");
    match outcome {
        EscposTestOutcome::NotBuilt { error } => stamped(
            test_type,
            method,
            printer_name,
            String::new(),
            0,
            None,
            false,
            None,
            String::from_str("No se pudo decodificar/generar el archivo ESC/POS desde tk-raw.txt."),
            Some(error),
        ),
        EscposTestOutcome::Sent { file_path, file_size, job_id } => stamped(
            test_type,
            method,
            printer_name,
            file_path,
            file_size,
            None,
            true,
            Some(job_id),
            String::from_str(
                "Ticket tk-raw ESC/POS enviado como RAW. Valida fisicamente si salio el formato Malova.",
            ),
            None,
        ),
        EscposTestOutcome::NotSent { file_path, file_size, error } => stamped(
            test_type,
            method,
            printer_name,
            file_path,
            file_size,
            None,
            false,
            None,
            String::from_str("No se pudo enviar el ticket tk-raw ESC/POS al spooler."),
            Some(error),
        ),
    }
}

/// What became of the PDF test document.
#[derive(Debug, Clone, PartialEq, Eq)]
pub enum PdfTestOutcome {
    /// The document could not be saved.
    NotSaved { error: String },
    /// The spooler accepted the PDF as a job.
    Spooled { file_path: String, file_size: u64, job_id: u64 },
    /// The spooler refused it, and the shell's `PrintTo` took it.
    ShellPrinted { file_path: String, file_size: u64, direct_error: String },
    /// Neither the spooler nor the shell took it.
    NotPrinted { file_path: String, file_size: u64, direct_error: String, shell_error: String },
}

pub open spec fn pdf_test_method() -> Seq<char> {
    "jsPDF -> archivo PDF -> rust-printers PDF o Windows Shell PrintTo"@
}

/// The record of a PDF test for each outcome; `document_size` is the size
/// of the document that was to be saved.
pub open spec fn pdf_test_record(
    printer_name: Seq<char>,
    header: Option<Seq<char>>,
    document_size: u64,
    outcome: PdfTestOutcome,
) -> RecordView {
    match outcome {
        PdfTestOutcome::NotSaved { error } => (
            "pdf"@,
            pdf_test_method(),
            printer_name,
            Seq::empty(),
            document_size,
            header,
            false,
            None,
            "No se pudo guardar el PDF de prueba."@,
            Some(error@),
        ),
        PdfTestOutcome::Spooled { file_path, file_size, job_id } => (
            "pdf"@,
            pdf_test_method(),
            printer_name,
            file_path@,
            file_size,
            header,
            true,
            Some(job_id),
            "Trabajo PDF enviado al spooler. Valida fisicamente si la impresora lo proceso."@,
            None,
        ),
        PdfTestOutcome::ShellPrinted { file_path, file_size, direct_error } => (
            "pdf"@,
            pdf_test_method(),
            printer_name,
            file_path@,
            file_size,
            header,
            true,
            None,
            "El spooler no acepto PDF crudo; Windows recibio la orden PrintTo mediante la app PDF asociada. Valida fisicamente si salio el documento."@,
            Some("Fallo directo: "@ + direct_error@),
        ),
        PdfTestOutcome::NotPrinted { file_path, file_size, direct_error, shell_error } => (
            "pdf"@,
            pdf_test_method(),
            printer_name,
            file_path@,
            file_size,
            header,
            false,
            None,
            "No se pudo enviar el PDF directo al spooler ni por Windows Shell PrintTo."@,
            Some("Directo: "@ + direct_error@ + " | Shell: "@ + shell_error@),
        ),
    }
}

/// The record of a PDF test, stamped with the current time.
pub fn pdf_test_result(
    printer_name: String,
    header: Option<String>,
    document_size: u64,
    outcome: PdfTestOutcome,
) -> (r: PrinterTestResult)
    ensures
        is_timestamp_text(r.created_at@),
        record_view(r) == pdf_test_record(printer_name@, opt_view(header), document_size, outcome),
{
    let method = String::from_str("jsPDF -> archivo PDF -> rust-printers PDF o Windows Shell PrintTo");
    let test_type = String::from_str("pdf");
    match outcome {
        PdfTestOutcome::NotSaved { error } => stamped(
            test_type,
            method,
            printer_name,
            String::new(),
            document_size,
            header,
            false,
            None,
            String::from_str("No se pudo guardar el PDF de prueba."),
            Some(error),
        ),
        PdfTestOutcome::Spooled { file_path, file_size, job_id } => stamped(
            test_type,
            method,
            printer_name,
            file_path,
            file_size,
            header,
            true,
            Some(job_id),
            String::from_str(
                "Trabajo PDF enviado al spooler. Valida fisicamente si la impresora lo proceso.",
            ),
            None,
        ),
        PdfTestOutcome::ShellPrinted { file_path, file_size, direct_error } => {
            let mut e = String::from_str("Fallo directo: ");
            e.append(direct_error.as_str());
            stamped(
                test_type,
                method,
                printer_name,
                file_path,
                file_size,
                header,
                true,
                None,
                String::from_str(
                    "El spooler no acepto PDF crudo; Windows recibio la orden PrintTo mediante la app PDF asociada. Valida fisicamente si salio el documento.",
                ),
                Some(e),
            )
        },
        PdfTestOutcome::NotPrinted { file_path, file_size, direct_error, shell_error } => {
            let mut e = String::from_str("Directo: ");
            e.append(direct_error.as_str());
            e.append(" | Shell: ");
            e.append(shell_error.as_str());
            stamped(
                test_type,
                method,
                printer_name,
                file_path,
                file_size,
                header,
                false,
                None,
                String::from_str(
                    "No se pudo enviar el PDF directo al spooler ni por Windows Shell PrintTo.",
                ),
                Some(e),
            )
        },
    }
}

/// The decimal notation of a signed number, with `-` before a negative one.
pub open spec fn signed_decimal(n: int) -> Seq<char> {
    if n < 0 {
        seq!['-'] + decimal((-n) as nat)
    } else {
        decimal(n as nat)
    }
}

/// See [`signed_decimal`].
pub fn signed_decimal_string(n: i32) -> (r: String)
    ensures
        r@ == signed_decimal(n as int),
{
    if n < 0 {
        let magnitude = (-(n as i64)) as u64;
        let mut s = String::from_str("-");
        proof {
            reveal_strlit("-");
        }
        s.append(decimal_string(magnitude).as_str());
        s
    } else {
        decimal_string(n as u64)
    }
}

/// What became of a silent print through SumatraPDF.
#[derive(Debug, PartialEq, Eq)]
pub enum SumatraOutcome {
    /// The PDF could not be saved before printing.
    NotSaved { error: String },
    /// The program does not run on Windows.
    NotWindows { file_path: String },
    /// The bundled SumatraPDF was not found.
    NoSumatra { file_path: String, error: String },
    /// No printer was named and Windows has no default printer.
    NoDefaultPrinter { file_path: String },
    /// The named printer does not exist.
    UnknownPrinter { file_path: String, error: String },
    /// SumatraPDF could not be started.
    NotStarted { file_path: String, error: String, command_line: String },
    /// SumatraPDF ran; `queue` is what the print queue query reported.
    Finished {
        file_path: String,
        exit_ok: bool,
        exit_code: Option<i32>,
        stdout: String,
        stderr: String,
        queue: Result<String, String>,
        command_line: String,
    },
}

pub open spec fn sumatra_method() -> Seq<char> {
    "jsPDF -> archivo PDF -> SumatraPDF portable -print-to -silent"@
}

/// The exit code as shown: its number, or `sin_codigo` when the process
/// ended without one.
pub open spec fn exit_code_text(code: Option<i32>) -> Seq<char> {
    match code {
        Some(c) => signed_decimal(c as int),
        None => "sin_codigo"@,
    }
}

/// What the print queue query adds to the message.
pub open spec fn queue_text(queue: Result<String, String>) -> Seq<char> {
    match queue {
        Ok(status) => "Cola Windows: "@ + status@,
        Err(error) => "No se pudo consultar cola Windows: "@ + error@,
    }
}

/// The record of a SumatraPDF print for each outcome. `selected_printer`
/// is the printer the job went to once it was resolved.
pub open spec fn sumatra_record(
    test_type: Option<Seq<char>>,
    printer_name: Seq<char>,
    selected_printer: Seq<char>,
    header: Option<Seq<char>>,
    file_size: u64,
    outcome: SumatraOutcome,
) -> RecordView {
    let tt = match test_type {
        Some(t) => t,
        None => "pdf-sumatra"@,
    };
    let m = sumatra_method();
    let asked = trimmed(printer_name);
    match outcome {
        SumatraOutcome::NotSaved { error } => (
            tt,
            m,
            asked,
            Seq::empty(),
            file_size,
            header,
            false,
            None,
            "No se pudo guardar el PDF antes de imprimir con SumatraPDF."@,
            Some(error@),
        ),
        SumatraOutcome::NotWindows { file_path } => (
            tt,
            m,
            asked,
            file_path@,
            file_size,
            header,
            false,
            None,
            "La impresion silenciosa con SumatraPDF solo esta disponible en Windows."@,
            None,
        ),
        SumatraOutcome::NoSumatra { file_path, error } => (
            tt,
            m,
            asked,
            file_path@,
            file_size,
            header,
            false,
            None,
            "No se pudo encontrar SumatraPDF portable empaquetado."@,
            Some(error@),
        ),
        SumatraOutcome::NoDefaultPrinter { file_path } => (
            tt,
            m,
            "Predeterminada"@,
            file_path@,
            file_size,
            header,
            false,
            None,
            "No hay impresora predeterminada para usar con SumatraPDF."@,
            None,
        ),
        SumatraOutcome::UnknownPrinter { file_path, error } => (
            tt,
            m,
            asked,
            file_path@,
            file_size,
            header,
            false,
            None,
            "La impresora seleccionada para SumatraPDF no existe en Windows."@,
            Some(error@),
        ),
        SumatraOutcome::NotStarted { file_path, error, command_line } => (
            tt,
            m,
            selected_printer,
            file_path@,
            file_size,
            header,
            false,
            None,
            "No se pudo ejecutar SumatraPDF portable."@,
            Some(error@ + " | Comando: "@ + command_line@),
        ),
        SumatraOutcome::Finished {
            file_path,
            exit_ok,
            exit_code,
            stdout,
            stderr,
            queue,
            command_line,
        } => {
            let out = trimmed(stdout@);
            let err = trimmed(stderr@);
            if exit_ok {
                (
                    tt,
                    m,
                    selected_printer,
                    file_path@,
                    file_size,
                    header,
                    true,
                    None,
                    "SumatraPDF termino OK. Exit code: "@ + exit_code_text(exit_code) + ". "@
                        + queue_text(queue) + ". Comando: "@ + command_line@,
                    if out.len() == 0 && err.len() == 0 {
                        None
                    } else {
                        Some("stdout: "@ + out + " | stderr: "@ + err)
                    },
                )
            } else {
                (
                    tt,
                    m,
                    selected_printer,
                    file_path@,
                    file_size,
                    header,
                    false,
                    None,
                    "SumatraPDF termino con error. Exit code: "@ + exit_code_text(exit_code)
                        + ". "@ + queue_text(queue) + "."@,
                    Some("Comando: "@ + command_line@ + " | stdout: "@ + out + " | stderr: "@ + err),
                )
            }
        },
    }
}

fn concat(a: &str, b: &str) -> (r: String)
    ensures
        r@ == a@ + b@,
{
    let mut s = String::from_str(a);
    s.append(b);
    s
}

/// The record of a SumatraPDF print, stamped with the current time.
pub fn sumatra_test_result(
    test_type: Option<String>,
    printer_name: &str,
    selected_printer: &str,
    header: Option<String>,
    file_size: u64,
    outcome: SumatraOutcome,
) -> (r: PrinterTestResult)
    ensures
        is_timestamp_text(r.created_at@),
        record_view(r) == sumatra_record(
            opt_view(test_type),
            printer_name@,
            selected_printer@,
            opt_view(header),
            file_size,
            outcome,
        ),
{
    let tt = match test_type {
        Some(t) => t,
        None => String::from_str("pdf-sumatra"),
    };
    let m = String::from_str("jsPDF -> archivo PDF -> SumatraPDF portable -print-to -silent");
    let asked = trim_text(printer_name);
    match outcome {
        SumatraOutcome::NotSaved { error } => stamped(
            tt,
            m,
            asked,
            String::new(),
            file_size,
            header,
            false,
            None,
            String::from_str("No se pudo guardar el PDF antes de imprimir con SumatraPDF."),
            Some(error),
        ),
        SumatraOutcome::NotWindows { file_path } => stamped(
            tt,
            m,
            asked,
            file_path,
            file_size,
            header,
            false,
            None,
            String::from_str(
                "La impresion silenciosa con SumatraPDF solo esta disponible en Windows.",
            ),
            None,
        ),
        SumatraOutcome::NoSumatra { file_path, error } => stamped(
            tt,
            m,
            asked,
            file_path,
            file_size,
            header,
            false,
            None,
            String::from_str("No se pudo encontrar SumatraPDF portable empaquetado."),
            Some(error),
        ),
        SumatraOutcome::NoDefaultPrinter { file_path } => stamped(
            tt,
            m,
            String::from_str("Predeterminada"),
            file_path,
            file_size,
            header,
            false,
            None,
            String::from_str("No hay impresora predeterminada para usar con SumatraPDF."),
            None,
        ),
        SumatraOutcome::UnknownPrinter { file_path, error } => stamped(
            tt,
            m,
            asked,
            file_path,
            file_size,
            header,
            false,
            None,
            String::from_str("La impresora seleccionada para SumatraPDF no existe en Windows."),
            Some(error),
        ),
        SumatraOutcome::NotStarted { file_path, error, command_line } => {
            let mut e = error;
            e.append(" | Comando: ");
            e.append(command_line.as_str());
            stamped(
                tt,
                m,
                String::from_str(selected_printer),
                file_path,
                file_size,
                header,
                false,
                None,
                String::from_str("No se pudo ejecutar SumatraPDF portable."),
                Some(e),
            )
        },
        SumatraOutcome::Finished {
            file_path,
            exit_ok,
            exit_code,
            stdout,
            stderr,
            queue,
            command_line,
        } => {
            let out = trim_text(stdout.as_str());
            let err = trim_text(stderr.as_str());
            let exit_text = match exit_code {
                Some(c) => signed_decimal_string(c),
                None => String::from_str("sin_codigo"),
            };
            let queue_message = match &queue {
                Ok(status) => concat("Cola Windows: ", status.as_str()),
                Err(error) => concat("No se pudo consultar cola Windows: ", error.as_str()),
            };
            if exit_ok {
                let mut message = String::from_str("SumatraPDF termino OK. Exit code: ");
                message.append(exit_text.as_str());
                message.append(". ");
                message.append(queue_message.as_str());
                message.append(". Comando: ");
                message.append(command_line.as_str());
                let error = if chars_of(out.as_str()).len() == 0 && chars_of(err.as_str()).len()
                    == 0 {
                    None
                } else {
                    let mut e = String::from_str("stdout: ");
                    e.append(out.as_str());
                    e.append(" | stderr: ");
                    e.append(err.as_str());
                    Some(e)
                };
                stamped(
                    tt,
                    m,
                    String::from_str(selected_printer),
                    file_path,
                    file_size,
                    header,
                    true,
                    None,
                    message,
                    error,
                )
            } else {
                let mut message = String::from_str("SumatraPDF termino con error. Exit code: ");
                message.append(exit_text.as_str());
                message.append(". ");
                message.append(queue_message.as_str());
                message.append(".");
                let mut e = String::from_str("Comando: ");
                e.append(command_line.as_str());
                e.append(" | stdout: ");
                e.append(out.as_str());
                e.append(" | stderr: ");
                e.append(err.as_str());
                stamped(
                    tt,
                    m,
                    String::from_str(selected_printer),
                    file_path,
                    file_size,
                    header,
                    false,
                    None,
                    message,
                    Some(e),
                )
            }
        },
    }
}

/// An ESC/POS test is recorded as successful exactly when the spooler
/// accepted the raw job.
pub proof fn lemma_escpos_success_means_sent(printer_name: Seq<char>, outcome: EscposTestOutcome)
    ensures
        escpos_test_record(printer_name, outcome).6 <==> outcome is Sent,
        escpos_test_record(printer_name, outcome).7 is Some <==> outcome is Sent,
{
}

/// A PDF test is recorded as successful exactly when the document was
/// taken, by the spooler or by the shell's `PrintTo`; a job number is
/// recorded only when the spooler took it.
pub proof fn lemma_pdf_success_means_taken(
    printer_name: Seq<char>,
    header: Option<Seq<char>>,
    document_size: u64,
    outcome: PdfTestOutcome,
)
    ensures
        pdf_test_record(printer_name, header, document_size, outcome).6 <==> (outcome is Spooled
            || outcome is ShellPrinted),
        pdf_test_record(printer_name, header, document_size, outcome).7 is Some <==> outcome is Spooled,
{
}

/// A SumatraPDF print is recorded as successful exactly when SumatraPDF ran
/// and exited successfully; every earlier failure (document not saved, not
/// on Windows, SumatraPDF missing, no default printer, unknown printer,
/// SumatraPDF not started) is recorded as a failure, and no job number is
/// ever recorded.
pub proof fn lemma_sumatra_success_means_printed(
    test_type: Option<Seq<char>>,
    printer_name: Seq<char>,
    selected_printer: Seq<char>,
    header: Option<Seq<char>>,
    file_size: u64,
    outcome: SumatraOutcome,
)
    ensures
        sumatra_record(test_type, printer_name, selected_printer, header, file_size, outcome).6
            <==> (outcome matches SumatraOutcome::Finished { exit_ok, .. } && exit_ok),
        sumatra_record(test_type, printer_name, selected_printer, header, file_size, outcome).7
            is None,
{
}

} // verus!
