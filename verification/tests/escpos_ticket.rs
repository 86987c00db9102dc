use pos_print::escpos::{push_escpos_text, sale_date_time, sale_escpos_bytes, SaleLine, SaleTicket};

#[test]
fn text_line_drops_non_ascii_and_ends_line() {
    let mut bytes = vec![1u8];
    push_escpos_text(&mut bytes, "Añ b");
    assert_eq!(bytes, vec![1, b'A', b' ', b'b', b'\n']);
    let mut empty = Vec::new();
    push_escpos_text(&mut empty, "");
    assert_eq!(empty, vec![b'\n']);
}

#[test]
fn date_and_time_from_iso_timestamp() {
    let (d, t) = sale_date_time("2024-05-01T13:45:10.000Z");
    assert_eq!(d, "2024-05-01");
    assert_eq!(t, "13:45:10");
}

#[test]
fn date_and_time_from_spaced_timestamp() {
    let (d, t) = sale_date_time("2024-05-01 13:45");
    assert_eq!(d, "2024-05-01");
    assert_eq!(t, "13:45");
}

#[test]
fn date_without_time() {
    let (d, t) = sale_date_time("  2024-05-01  ");
    assert_eq!(d, "2024-05-01");
    assert_eq!(t, "00:00:00");
}

#[test]
fn empty_timestamp_is_kept_as_date() {
    assert_eq!(sale_date_time(""), (String::new(), "00:00:00".to_string()));
    assert_eq!(sale_date_time("   "), ("   ".to_string(), "00:00:00".to_string()));
    assert_eq!(sale_date_time("T"), ("T".to_string(), "00:00:00".to_string()));
}

fn sample_sale() -> SaleTicket {
    SaleTicket {
        folio: "V-000123".to_string(),
        created_at: "2024-05-01T13:45:10.000Z".to_string(),
        total: "21.00".to_string(),
        items: vec![SaleLine {
            sku: "SKU1".to_string(),
            name: "Martillo de uña".to_string(),
            quantity: "2.00".to_string(),
            unit_price: "10.50".to_string(),
            total: "21.00".to_string(),
        }],
    }
}

fn contains(haystack: &[u8], needle: &[u8]) -> bool {
    haystack.windows(needle.len()).any(|w| w == needle)
}

#[test]
fn sale_ticket_layout() {
    let bytes = sale_escpos_bytes(&sample_sale());
    assert!(bytes.starts_with(&[0x1b, 0x40, 0x1b, 0x4d, 0x00, 0x1b, 0x61, 0x01, 0x1d, 0x21, 0x00]));
    assert!(bytes.ends_with(b"---------------------------------\n\x1d\x56\x41\x03"));
    assert!(contains(&bytes, b"FERRETERIA MALOVA, S.A. DE C.V.\n"));
    assert!(contains(&bytes, b"FECHA: 2024-05-01  T:V-000123\n"));
    assert!(contains(&bytes, b"HORA: 13:45:10  VEND: 08\n"));
    assert!(contains(&bytes, b"SKU1   2.00 PZA   10.50   21.00\nMartillo de ua \n"));
    assert!(contains(&bytes, b"\x1b\x61\x02\x1b\x21\x08T O T A L : 21.00\n"));
    assert!(contains(&bytes, b"*** IDWEB PARA FACTURAR V-000123 ***\n"));
    assert!(bytes.iter().all(|b| *b < 128));
}

#[test]
fn sale_ticket_without_items() {
    let mut sale = sample_sale();
    sale.items.clear();
    let bytes = sale_escpos_bytes(&sale);
    assert!(contains(
        &bytes,
        b"COD  CANT  ART  PRECIO  IMPORTE\n---------------------------------\n---------------------------------\n"
    ));
}

#[test]
fn long_folio_is_cut() {
    let mut sale = sample_sale();
    sale.folio = "ABCDEFGHIJKLMNOP".to_string();
    let bytes = sale_escpos_bytes(&sale);
    assert!(contains(&bytes, b"T:ABCDEFGHI\n"));
    assert!(contains(&bytes, b"FACTURAR ABCDEFGHIJKL ***"));
}
