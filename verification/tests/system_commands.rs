use pos_print::commands::{
    copy_command, is_sumatra_pdf_name, join_with, print_jobs_outcome, print_jobs_script,
    printer_share_target, requested_printer, shell_print_script, sumatra_command_line,
    sumatra_not_found_message, sumatra_print_args, sumatra_printer_label,
};

#[test]
fn requested_printer_names() {
    assert_eq!(requested_printer("  EPSON TM-T20 "), Some("EPSON TM-T20".to_string()));
    assert_eq!(requested_printer(" \t "), None);
    assert_eq!(sumatra_printer_label(""), "Predeterminada");
    assert_eq!(sumatra_printer_label(" POS58 "), "POS58");
}

#[test]
fn sumatra_arguments_for_default_printer() {
    assert_eq!(
        sumatra_print_args("  ", "C:\\docs\\a.pdf"),
        vec!["-silent", "-exit-when-done", "-print-settings", "fit", "-print-to-default", "C:\\docs\\a.pdf"]
    );
}

#[test]
fn sumatra_arguments_for_named_printer() {
    assert_eq!(
        sumatra_print_args(" POS58 ", "a.pdf"),
        vec!["-silent", "-exit-when-done", "-print-settings", "fit", "-print-to", "POS58", "a.pdf"]
    );
}

#[test]
fn sumatra_command_line_joins_arguments() {
    let args = sumatra_print_args("", "a.pdf");
    assert_eq!(
        sumatra_command_line("C:\\S.exe", &args),
        "C:\\S.exe -silent -exit-when-done -print-settings fit -print-to-default a.pdf"
    );
    assert_eq!(join_with(&Vec::new(), ", "), "");
    assert_eq!(join_with(&vec!["a".to_string()], ", "), "a");
}

#[test]
fn sumatra_missing_message() {
    let checked = vec!["C:\\a\\SumatraPDF.exe".to_string(), "C:\\b\\SumatraPDF.exe".to_string()];
    assert_eq!(
        sumatra_not_found_message(&checked),
        "No se encontro SumatraPDF portable empaquetado. Rutas revisadas: C:\\a\\SumatraPDF.exe | C:\\b\\SumatraPDF.exe"
    );
}

#[test]
fn share_targets() {
    assert_eq!(printer_share_target("  POS58 ", true), Ok("\\\\localhost\\POS58".to_string()));
    assert_eq!(printer_share_target("\\\\caja\\POS58", true), Ok("\\\\caja\\POS58".to_string()));
    assert_eq!(
        printer_share_target("  ", true),
        Err("Configura el nombre compartido de la impresora termica.".to_string())
    );
    assert_eq!(
        printer_share_target("POS58", false),
        Err("La impresion ESC/POS directa solo esta implementada para Windows.".to_string())
    );
}

#[test]
fn copy_command_quotes_both_paths() {
    assert_eq!(
        copy_command("C:\\Temp\\ticket.escpos", "\\\\localhost\\POS58"),
        "copy /B \"C:\\Temp\\ticket.escpos\" \"\\\\localhost\\POS58\""
    );
}

#[test]
fn print_jobs_script_escapes_name() {
    assert_eq!(
        print_jobs_script("O'Neil"),
        "Get-PrintJob -PrinterName 'O''Neil' | Select-Object -First 5 ID,Name,JobStatus,SubmittedTime | ConvertTo-Json -Compress"
    );
}

#[test]
fn print_jobs_outcomes() {
    assert_eq!(print_jobs_outcome(true, " \r\n", ""), Ok("Sin trabajos activos detectados".to_string()));
    assert_eq!(print_jobs_outcome(true, " {\"ID\":3}\n", ""), Ok("{\"ID\":3}".to_string()));
    assert_eq!(print_jobs_outcome(false, "", "  "), Err("Get-PrintJob fallo sin detalle".to_string()));
    assert_eq!(print_jobs_outcome(false, "x", " acceso denegado\n"), Err("acceso denegado".to_string()));
}

#[test]
fn shell_print_scripts() {
    assert_eq!(
        shell_print_script("C:\\O'Brien\\a.pdf", None),
        "Start-Process -FilePath 'C:\\O''Brien\\a.pdf' -Verb Print -WindowStyle Hidden"
    );
    assert_eq!(
        shell_print_script("a.pdf", Some("   ")),
        "Start-Process -FilePath 'a.pdf' -Verb Print -WindowStyle Hidden"
    );
    assert_eq!(
        shell_print_script("a.pdf", Some("HP \"Office\" Jet's")),
        "Start-Process -FilePath 'a.pdf' -Verb PrintTo -ArgumentList '\"HP `\"Office`\" Jet''s\"' -WindowStyle Hidden"
    );
}

#[test]
fn sumatra_file_names() {
    assert!(is_sumatra_pdf_name("SumatraPDF-3.6.1-64.exe"));
    assert!(is_sumatra_pdf_name("SUMATRAPDF.EXE"));
    assert!(is_sumatra_pdf_name("sumatrapdf.exe"));
    assert!(!is_sumatra_pdf_name("sumatra.exe"));
    assert!(!is_sumatra_pdf_name("SumatraPDF.exe.bak"));
    assert!(!is_sumatra_pdf_name("SumatraPDF"));
}
