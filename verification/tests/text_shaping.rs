use pos_print::text::{
    decimal_string, escape_powershell_single, fit_text, pad_left, pad_right, plain_text,
    safe_file_name, trim_text,
};

#[test]
fn safe_file_name_replaces_other_characters() {
    assert_eq!(safe_file_name("ticket venta.pdf", "x.pdf"), "ticket_venta.pdf");
    assert_eq!(safe_file_name("año/2024", "x.pdf"), "a_o_2024");
    assert_eq!(safe_file_name("A-b_c.9", "x.pdf"), "A-b_c.9");
}

#[test]
fn safe_file_name_uses_fallback_for_empty_name() {
    assert_eq!(safe_file_name("", "documento.pdf"), "documento.pdf");
}

#[test]
fn safe_file_name_twice_is_unchanged() {
    let once = safe_file_name("Cotización #12.pdf", "documento.pdf");
    assert_eq!(safe_file_name(&once, "documento.pdf"), once);
}

#[test]
fn plain_text_keeps_ascii() {
    assert_eq!(plain_text("Café ñandú"), "Caf and");
    assert_eq!(plain_text(&plain_text("Café ñandú")), "Caf and");
}

#[test]
fn fit_text_cuts_ascii_text() {
    assert_eq!(fit_text("Martillo", 3), "Mar");
    assert_eq!(fit_text("ñandú", 10), "and");
    assert_eq!(fit_text("abc", 0), "");
}

#[test]
fn padding_fills_the_width() {
    assert_eq!(pad_right("ab", 5), "ab   ");
    assert_eq!(pad_left("ab", 5), "   ab");
    assert_eq!(pad_right("abcdefg", 5), "abcde");
    assert_eq!(pad_left("abcdefg", 5), "abcde");
    assert_eq!(pad_left("€5", 3), "  5");
}

#[test]
fn single_quotes_are_doubled() {
    assert_eq!(escape_powershell_single("O'Brien"), "O''Brien");
    assert_eq!(escape_powershell_single("''"), "''''");
    assert_eq!(escape_powershell_single("sin comillas"), "sin comillas");
}

#[test]
fn decimal_notation() {
    assert_eq!(decimal_string(0), "0");
    assert_eq!(decimal_string(7), "7");
    assert_eq!(decimal_string(1714571110), "1714571110");
    assert_eq!(decimal_string(u64::MAX), u64::MAX.to_string());
}

#[test]
fn trim_removes_unicode_white_space() {
    assert_eq!(trim_text("  hola \t\n"), "hola");
    assert_eq!(trim_text("\u{3000}EPSON TM\u{a0}"), "EPSON TM");
    assert_eq!(trim_text("   "), "");
    assert_eq!(trim_text(&trim_text(" a b ")), "a b");
}
