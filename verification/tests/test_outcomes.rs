use pos_print::outcomes::{
    escpos_test_result, pdf_test_result, printer_state_label, signed_decimal_string,
    sumatra_test_result, EscposTestOutcome, PdfTestOutcome, PrinterStatus, SumatraOutcome,
};

#[test]
fn state_labels() {
    assert_eq!(printer_state_label(&PrinterStatus::Ready), "ready");
    assert_eq!(printer_state_label(&PrinterStatus::Offline), "offline");
    assert_eq!(printer_state_label(&PrinterStatus::Paused), "paused");
    assert_eq!(printer_state_label(&PrinterStatus::Printing), "printing");
    assert_eq!(printer_state_label(&PrinterStatus::Unknown), "unknown");
}

#[test]
fn signed_numbers() {
    assert_eq!(signed_decimal_string(0), "0");
    assert_eq!(signed_decimal_string(-42), "-42");
    assert_eq!(signed_decimal_string(i32::MIN), "-2147483648");
    assert_eq!(signed_decimal_string(i32::MAX), "2147483647");
}

#[test]
fn escpos_test_records() {
    let sent = escpos_test_result(
        "POS58".to_string(),
        EscposTestOutcome::Sent { file_path: "/t/a.escpos".to_string(), file_size: 120, job_id: 7 },
    );
    assert!(sent.success);
    assert_eq!(sent.job_id, Some(7));
    assert_eq!(sent.test_type, "escpos");
    assert_eq!(sent.method, "tk-raw.txt Base64 -> archivo .escpos -> rust-printers RAW -> WinSpool");
    assert_eq!(sent.error, None);

    let refused = escpos_test_result(
        "POS58".to_string(),
        EscposTestOutcome::NotSent {
            file_path: "/t/a.escpos".to_string(),
            file_size: 120,
            error: "spooler".to_string(),
        },
    );
    assert!(!refused.success);
    assert_eq!(refused.message, "No se pudo enviar el ticket tk-raw ESC/POS al spooler.");
    assert_eq!(refused.error, Some("spooler".to_string()));

    let unbuilt =
        escpos_test_result("POS58".to_string(), EscposTestOutcome::NotBuilt { error: "b64".to_string() });
    assert_eq!(unbuilt.file_path, "");
    assert_eq!(unbuilt.file_size, 0);
    assert_eq!(unbuilt.message, "No se pudo decodificar/generar el archivo ESC/POS desde tk-raw.txt.");
}

#[test]
fn pdf_test_records() {
    let header = Some("%PDF".to_string());
    let unsaved = pdf_test_result(
        "HP".to_string(),
        header.clone(),
        2048,
        PdfTestOutcome::NotSaved { error: "sin espacio".to_string() },
    );
    assert_eq!(unsaved.file_size, 2048);
    assert_eq!(unsaved.file_path, "");
    assert!(!unsaved.success);

    let shell = pdf_test_result(
        "HP".to_string(),
        header.clone(),
        2048,
        PdfTestOutcome::ShellPrinted {
            file_path: "a.pdf".to_string(),
            file_size: 2000,
            direct_error: "raw".to_string(),
        },
    );
    assert!(shell.success);
    assert_eq!(shell.job_id, None);
    assert_eq!(shell.error, Some("Fallo directo: raw".to_string()));
    assert_eq!(shell.header, header);

    let failed = pdf_test_result(
        "HP".to_string(),
        None,
        1,
        PdfTestOutcome::NotPrinted {
            file_path: "a.pdf".to_string(),
            file_size: 1,
            direct_error: "raw".to_string(),
            shell_error: "shell".to_string(),
        },
    );
    assert_eq!(failed.error, Some("Directo: raw | Shell: shell".to_string()));

    let spooled = pdf_test_result(
        "HP".to_string(),
        None,
        1,
        PdfTestOutcome::Spooled { file_path: "a.pdf".to_string(), file_size: 1, job_id: 9 },
    );
    assert_eq!(spooled.job_id, Some(9));
    assert_eq!(spooled.test_type, "pdf");
}

#[test]
fn sumatra_records() {
    let not_windows = sumatra_test_result(
        None,
        "  HP  ",
        "HP",
        None,
        10,
        SumatraOutcome::NotWindows { file_path: "a.pdf".to_string() },
    );
    assert_eq!(not_windows.test_type, "pdf-sumatra");
    assert_eq!(not_windows.printer_name, "HP");
    assert_eq!(
        not_windows.message,
        "La impresion silenciosa con SumatraPDF solo esta disponible en Windows."
    );

    let finished = sumatra_test_result(
        Some("cotizacion".to_string()),
        "",
        "Microsoft Print to PDF",
        Some("%PDF".to_string()),
        10,
        SumatraOutcome::Finished {
            file_path: "a.pdf".to_string(),
            exit_ok: true,
            exit_code: Some(0),
            stdout: " \n".to_string(),
            stderr: "".to_string(),
            queue: Ok("Sin trabajos activos detectados".to_string()),
            command_line: "S.exe -silent a.pdf".to_string(),
        },
    );
    assert!(finished.success);
    assert_eq!(finished.test_type, "cotizacion");
    assert_eq!(finished.printer_name, "Microsoft Print to PDF");
    assert_eq!(
        finished.message,
        "SumatraPDF termino OK. Exit code: 0. Cola Windows: Sin trabajos activos detectados. Comando: S.exe -silent a.pdf"
    );
    assert_eq!(finished.error, None);

    let failed = sumatra_test_result(
        None,
        "HP",
        "HP",
        None,
        10,
        SumatraOutcome::Finished {
            file_path: "a.pdf".to_string(),
            exit_ok: false,
            exit_code: None,
            stdout: "".to_string(),
            stderr: " bad \n".to_string(),
            queue: Err("acceso".to_string()),
            command_line: "S.exe".to_string(),
        },
    );
    assert!(!failed.success);
    assert_eq!(
        failed.message,
        "SumatraPDF termino con error. Exit code: sin_codigo. No se pudo consultar cola Windows: acceso."
    );
    assert_eq!(failed.error, Some("Comando: S.exe | stdout:  | stderr: bad".to_string()));

    let not_started = sumatra_test_result(
        None,
        "HP",
        "HP",
        None,
        10,
        SumatraOutcome::NotStarted {
            file_path: "a.pdf".to_string(),
            error: "not found".to_string(),
            command_line: "S.exe".to_string(),
        },
    );
    assert_eq!(not_started.error, Some("not found | Comando: S.exe".to_string()));

    let no_default = sumatra_test_result(
        None,
        "",
        "Predeterminada",
        None,
        10,
        SumatraOutcome::NoDefaultPrinter { file_path: "a.pdf".to_string() },
    );
    assert_eq!(no_default.printer_name, "Predeterminada");
}
