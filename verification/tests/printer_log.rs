use pos_print::report::{
    append_and_return_log, file_header, log_entry, log_lines, note_log_failure, printer_result,
    printer_test_path, record_printer_log, test_pdf_name, unix_timestamp, PrinterLogPayload,
    PrinterTestResult,
};

fn sample_result() -> PrinterTestResult {
    PrinterTestResult {
        created_at: "1714571110".to_string(),
        test_type: "pdf".to_string(),
        method: "m".to_string(),
        printer_name: "EPSON".to_string(),
        file_path: "/tmp/a.pdf".to_string(),
        file_size: 10,
        header: Some("%PDF".to_string()),
        success: true,
        job_id: Some(4),
        message: "Listo.".to_string(),
        error: None,
    }
}

fn is_digits(s: &str) -> bool {
    !s.is_empty() && s.chars().all(|c| c.is_ascii_digit())
}

#[test]
fn header_of_pdf() {
    assert_eq!(file_header(b"%PDF-1.7\n"), Some("%PDF".to_string()));
    assert_eq!(file_header(b"ab"), Some("ab".to_string()));
    assert_eq!(file_header(b""), None);
}

#[test]
fn header_of_invalid_utf8() {
    assert_eq!(file_header(&[0xff, 0x41, 0x42, 0x43, 0x44]), Some("\u{fffd}ABC".to_string()));
}

#[test]
fn timestamp_is_current() {
    let t = unix_timestamp();
    assert!(t > 1_600_000_000);
}

#[test]
fn test_file_names_are_stamped() {
    let name = printer_test_path("test-ticket-tk-raw", "escpos");
    let stamp = name.strip_prefix("test-ticket-tk-raw-").unwrap().strip_suffix(".escpos").unwrap();
    assert!(is_digits(stamp));
}

#[test]
fn pdf_test_names() {
    assert_eq!(test_pdf_name("mi doc.pdf"), "mi_doc.pdf");
    let stamped = test_pdf_name("  ");
    assert!(stamped.starts_with("test-pdf-") && stamped.ends_with(".pdf"));
}

#[test]
fn record_from_payload_fills_defaults() {
    let r = record_printer_log(PrinterLogPayload {
        test_type: "escpos".to_string(),
        method: "navegador".to_string(),
        printer_name: None,
        file_path: None,
        file_size: None,
        header: None,
        success: false,
        job_id: None,
        message: "Sin respuesta".to_string(),
        error: Some("timeout".to_string()),
    });
    assert!(is_digits(&r.created_at));
    assert_eq!(r.printer_name, "");
    assert_eq!(r.file_path, "");
    assert_eq!(r.file_size, 0);
    assert_eq!(r.test_type, "escpos");
    assert_eq!(r.message, "Sin respuesta");
    assert_eq!(r.error, Some("timeout".to_string()));
    assert!(!r.success);
}

#[test]
fn record_from_payload_keeps_values() {
    let r = record_printer_log(PrinterLogPayload {
        test_type: "pdf".to_string(),
        method: "m".to_string(),
        printer_name: Some("EPSON".to_string()),
        file_path: Some("/tmp/x.pdf".to_string()),
        file_size: Some(99),
        header: Some("%PDF".to_string()),
        success: true,
        job_id: Some(12),
        message: "ok".to_string(),
        error: None,
    });
    assert_eq!(r.printer_name, "EPSON");
    assert_eq!(r.file_path, "/tmp/x.pdf");
    assert_eq!(r.file_size, 99);
    assert_eq!(r.job_id, Some(12));
    assert_eq!(r.header, Some("%PDF".to_string()));
}

#[test]
fn printer_result_has_no_job() {
    let r = printer_result("pdf-sumatra", "m", "EPSON", "/a.pdf", 3, None, true, "ok", None);
    assert_eq!(r.job_id, None);
    assert_eq!(r.test_type, "pdf-sumatra");
    assert_eq!(r.file_size, 3);
    assert!(is_digits(&r.created_at));
}

#[test]
fn written_log_keeps_record() {
    let r = sample_result();
    assert_eq!(append_and_return_log(r.clone(), Ok(())), r);
    assert_eq!(note_log_failure(r.clone(), Ok(())), r);
}

#[test]
fn failed_log_marks_record() {
    let r = append_and_return_log(sample_result(), Err("disco lleno".to_string()));
    assert!(!r.success);
    assert_eq!(r.message, "Listo. Ademas fallo guardar log: disco lleno");
    assert_eq!(r.error, Some("disco lleno".to_string()));
    let mut with_error = sample_result();
    with_error.error = Some("previo".to_string());
    let r = append_and_return_log(with_error, Err("disco lleno".to_string()));
    assert_eq!(r.error, Some("previo | Log: disco lleno".to_string()));
    assert_eq!(r.job_id, Some(4));
}

#[test]
fn failed_log_only_extends_message() {
    let r = note_log_failure(sample_result(), Err("sin permiso".to_string()));
    assert!(r.success);
    assert_eq!(r.message, "Listo. Ademas fallo guardar log: sin permiso");
    assert_eq!(r.error, None);
}

#[test]
fn lines_of_log_text() {
    assert_eq!(log_lines("a\r\nb\n\nc"), vec!["a", "b", "", "c"]);
    assert_eq!(log_lines("x\n"), vec!["x"]);
    assert_eq!(log_lines(""), Vec::<String>::new());
    assert_eq!(log_lines("a\rb"), vec!["a\rb"]);
    assert_eq!(log_lines("\n"), vec![""]);
}

#[test]
fn log_reads_back_what_was_written() {
    let mut text = log_entry("{\"a\":1}");
    text.push_str(&log_entry("{\"b\":2}"));
    assert_eq!(log_lines(&text), vec!["{\"a\":1}", "{\"b\":2}"]);
}
