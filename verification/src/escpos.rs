//! ESC/POS ticket assembly for the 58 mm thermal printer.
use vstd::prelude::*;
use vstd::string::StringExecFns;
use crate::strings::{push_char, chars_of, string_from_chars};
use crate::text::{lemma_padded_width, lemma_ascii_only_is_ascii, is_ascii_char, ascii_only, fitted, padded_right, padded_left, fit_text, pad_right, pad_left, plain_text, trim_start, run_len, white_pred, lemma_run_len, is_white_space, is_whitespace_char};

verus! {

/// The bytes of text whose characters are all ASCII.
pub open spec fn ascii_bytes(s: Seq<char>) -> Seq<u8> {
    s.map_values(|c: char| (c as u32) as u8)
}

/// What one printed text line adds to the ticket: the ASCII characters of
/// `s` followed by a line feed.
pub open spec fn text_line(s: Seq<char>) -> Seq<u8> {
    ascii_bytes(ascii_only(s)).push(10u8)
}

/// Appends `value` as one line of ticket text: its non-ASCII characters are
/// dropped and a line feed ends it.
pub fn push_escpos_text(bytes: &mut Vec<u8>, value: &str)
    ensures
        final(bytes)@ == old(bytes)@ + text_line(value@),
{
    let plain = plain_text(value);
    let ghost start = bytes@;
    for c in it: plain.as_str().chars()
        invariant
            it.seq() == plain@,
            bytes@ == start + ascii_bytes(it.seq().take(it.index() as int)),
    {
        let ghost before = it.seq().take(it.index() as int);
        bytes.push((c as u32) as u8);
        proof {
            let i = it.index();
            assert(it.seq().take(i + 1) =~= before.push(c));
            assert(ascii_bytes(before.push(c)) =~= ascii_bytes(before).push((c as u32) as u8));
        }
    }
    bytes.push(10);
    proof {
        assert(plain@.take(plain@.len() as int) =~= plain@);
    }
}

/// `s` with every `T` replaced by a space.
pub open spec fn t_as_space(s: Seq<char>) -> Seq<char> {
    s.map_values(|c: char| if c == 'T' { ' ' } else { c })
}

pub open spec fn token_pred() -> spec_fn(char) -> bool {
    |c: char| !is_white_space(c)
}

/// The first white-space separated word of `s`, if any.
pub open spec fn first_word(s: Seq<char>) -> Option<Seq<char>> {
    let rest = trim_start(s);
    if rest.len() == 0 {
        None
    } else {
        Some(rest.take(run_len(rest, token_pred()) as int))
    }
}

/// What follows the first word of `s`.
pub open spec fn after_first_word(s: Seq<char>) -> Seq<char> {
    let rest = trim_start(s);
    rest.skip(run_len(rest, token_pred()) as int)
}

/// The date shown on a ticket: the first word of the timestamp once `T` is
/// read as a space, or the timestamp itself when it has no word.
pub open spec fn ticket_date(created_at: Seq<char>) -> Seq<char> {
    match first_word(t_as_space(created_at)) {
        Some(w) => w,
        None => created_at,
    }
}

/// The time shown on a ticket: at most eight characters of the second word,
/// or `00:00:00` when there is none.
pub open spec fn ticket_time(created_at: Seq<char>) -> Seq<char> {
    match first_word(after_first_word(t_as_space(created_at))) {
        Some(w) => if w.len() <= 8 {
            w
        } else {
            w.take(8)
        },
        None => "00:00:00"@,
    }
}

/// Index of the first position at or after `from` that does not satisfy
/// the scanned class: white space when `white` holds, a word character
/// otherwise.
fn scan(chars: &Vec<char>, from: usize, white: bool) -> (r: usize)
    requires
        from <= chars.len(),
    ensures
        from <= r <= chars.len(),
        forall|j: int| from <= j < r ==> is_white_space(#[trigger] chars@[j]) == white,
        r < chars.len() ==> is_white_space(chars@[r as int]) != white,
        r - from == run_len(
            chars@.skip(from as int),
            if white {
                white_pred()
            } else {
                token_pred()
            },
        ),
{
    let ghost p = if white {
        white_pred()
    } else {
        token_pred()
    };
    let mut i = from;
    while i < chars.len() && is_whitespace_char(chars[i]) == white
        invariant
            from <= i <= chars.len(),
            p == (if white {
                white_pred()
            } else {
                token_pred()
            }),
            forall|j: int| from <= j < i ==> p(#[trigger] chars@[j]),
        decreases chars.len() - i,
    {
        i += 1;
    }
    proof {
        let s = chars@.skip(from as int);
        assert forall|j: int| 0 <= j < i - from implies p(#[trigger] s[j]) by {
            assert(s[j] == chars@[from + j]);
        }
        if i < chars.len() {
            assert(s[i - from] == chars@[i as int]);
        }
        lemma_run_len(s, p, i - from);
    }
    i
}

/// Splits an ISO-like timestamp (`2024-05-01T13:45:10.000Z` or
/// `2024-05-01 13:45:10`) into the date and time printed on the ticket.
pub fn sale_date_time(created_at: &str) -> (r: (String, String))
    ensures
        r.0@ == ticket_date(created_at@),
        r.1@ == ticket_time(created_at@),
{
    let given = chars_of(created_at);
    let mut chars: Vec<char> = Vec::new();
    let mut k: usize = 0;
    while k < given.len()
        invariant
            k <= given.len(),
            chars@ == t_as_space(given@.take(k as int)),
        decreases given.len() - k,
    {
        let c = given[k];
        chars.push(if c == 'T' { ' ' } else { c });
        assert(given@.take(k + 1) =~= given@.take(k as int).push(c));
        assert(t_as_space(given@.take(k + 1)) =~= t_as_space(given@.take(k as int)).push(
            if c == 'T' { ' ' } else { c },
        ));
        k += 1;
    }
    assert(given@.take(given@.len() as int) =~= given@);
    let ghost n = chars@;
    let a = scan(&chars, 0, true);
    let b = scan(&chars, a, false);
    let c = scan(&chars, b, true);
    let d = scan(&chars, c, false);
    proof {
        assert(n.skip(0) =~= n);
        let rest = trim_start(n);
        assert(rest =~= n.skip(a as int));
        assert(rest.take(b - a) =~= n.subrange(a as int, b as int));
        let after = after_first_word(n);
        assert(after =~= n.skip(b as int));
        assert(trim_start(after) =~= n.skip(c as int));
        assert(trim_start(after).take(d - c) =~= n.subrange(c as int, d as int));
        if a < n.len() {
            assert(n.skip(a as int)[0] == n[a as int]);
            assert(run_len(n.skip(a as int), token_pred()) > 0);
        }
        if c < n.len() {
            assert(n.skip(c as int)[0] == n[c as int]);
            assert(run_len(n.skip(c as int), token_pred()) > 0);
        }
    }
    let date = if a < chars.len() {
        string_from_chars(&chars, a, b)
    } else {
        String::from_str(created_at)
    };
    let time = if c < chars.len() {
        let end = if d - c <= 8 {
            d
        } else {
            c + 8
        };
        proof {
            if d - c > 8 {
                assert(n.subrange(c as int, d as int).take(8) =~= n.subrange(c as int, (c + 8) as int));
            }
        }
        string_from_chars(&chars, c, end)
    } else {
        String::from_str("00:00:00")
    };
    (date, time)
}

/// One sold article as the ticket prints it. The amounts arrive already
/// written with two decimals.
#[derive(Debug, Clone, PartialEq, Eq)]
pub struct SaleLine {
    pub sku: String,
    pub name: String,
    pub quantity: String,
    pub unit_price: String,
    pub total: String,
}

/// A sale as the ticket prints it.
#[derive(Debug, Clone, PartialEq, Eq)]
pub struct SaleTicket {
    pub folio: String,
    pub created_at: String,
    pub total: String,
    pub items: Vec<SaleLine>,
}

/// The separator line.
pub open spec fn rule_text() -> Seq<char> {
    "---------------------------------"@
}

/// The columns of an article row: code, quantity, unit, price and amount.
pub open spec fn item_row(item: SaleLine) -> Seq<char> {
    padded_right(item.sku@, 5) + seq![' '] + padded_left(item.quantity@, 5) + seq![' ']
        + padded_right("PZA"@, 5) + seq![' '] + padded_left(item.unit_price@, 5) + seq![' ']
        + padded_left(item.total@, 7)
}

/// The two lines printed for an article: its row, then its name.
pub open spec fn item_bytes(item: SaleLine) -> Seq<u8> {
    text_line(item_row(item)) + text_line(fitted(item.name@, 32).push(' '))
}

/// The lines of all articles, in order.
pub open spec fn items_bytes(items: Seq<SaleLine>) -> Seq<u8>
    decreases items.len(),
{
    if items.len() == 0 {
        seq![]
    } else {
        items_bytes(items.drop_last()) + item_bytes(items.last())
    }
}

/// Printer reset, character set, centring and normal size.
pub open spec fn opening_codes() -> Seq<u8> {
    seq![0x1bu8, 0x40, 0x1b, 0x4d, 0x00, 0x1b, 0x61, 0x01, 0x1d, 0x21, 0x00]
}

/// The store heading, date and time, and the column titles.
pub open spec fn ticket_head(sale: SaleTicket) -> Seq<u8> {
    let date = ticket_date(sale.created_at@);
    let time = ticket_time(sale.created_at@);
    opening_codes() + text_line("FERRETERIA MALOVA, S.A. DE C.V."@) + text_line("SUC NOVIEMBRE"@)
        + text_line("DONDE USTED COMPRA DE CORAZON"@) + text_line("BLVD CENTENARIO 2104"@)
        + text_line("LOS ANGELES"@) + text_line("R.F.C. FMA850606P44"@) + text_line(
        "TEL: (668)2392358"@,
    ) + text_line("FECHA: "@ + date + "  T:"@ + fitted(sale.folio@, 9)) + text_line(
        "HORA: "@ + time + "  VEND: 08"@,
    ) + seq![0x1bu8, 0x64, 0x02, 0x1d, 0x21, 0x00] + text_line(
        "COD  CANT  ART  PRECIO  IMPORTE"@,
    ) + text_line(rule_text())
}

/// The total, the invoicing reference, the closing notes and the cut.
pub open spec fn ticket_tail(sale: SaleTicket) -> Seq<u8> {
    text_line(rule_text()) + seq![0x1bu8, 0x61, 0x02, 0x1b, 0x21, 0x08] + text_line(
        "T O T A L : "@ + sale.total@,
    ) + seq![0x1bu8, 0x21, 0x00, 0x1d, 0x21, 0x00] + text_line(""@) + seq![
        0x1bu8,
        0x21,
        0x01,
        0x1d,
        0x21,
        0x00,
        0x1b,
        0x61,
        0x01,
    ] + text_line("*** IDWEB PARA FACTURAR "@ + fitted(sale.folio@, 12) + " ***"@) + seq![
        0x1bu8,
        0x21,
        0x08,
    ] + text_line("FACTURA EN"@) + text_line("WWW.FERRETERIAMALOVA.COM.MX/FACTURACION"@) + seq![
        0x1bu8,
        0x21,
        0x00,
        0x1b,
        0x21,
        0x01,
    ] + text_line("***GRACIAS POR SU PREFERENCIA***"@) + text_line(
        "TODA DEVOLUCION CAUSARA 20% DE"@,
    ) + text_line("CARGO Y NO SE ACEPTA DESPUES"@) + text_line("DE 8 DIAS"@) + seq![
        0x1bu8,
        0x21,
        0x00,
    ] + text_line(rule_text()) + seq![0x1du8, 0x56, 0x41, 0x03]
}

/// The whole ticket of a sale.
pub open spec fn sale_ticket_bytes(sale: SaleTicket) -> Seq<u8> {
    ticket_head(sale) + items_bytes(sale.items@) + ticket_tail(sale)
}

fn push_bytes(bytes: &mut Vec<u8>, extra: &[u8])
    ensures
        final(bytes)@ == old(bytes)@ + extra@,
{
    let mut i: usize = 0;
    while i < extra.len()
        invariant
            i <= extra.len(),
            bytes@ == old(bytes)@ + extra@.take(i as int),
        decreases extra.len() - i,
    {
        bytes.push(extra[i]);
        assert(extra@.take(i + 1) =~= extra@.take(i as int).push(extra@[i as int]));
        i += 1;
    }
    assert(extra@.take(extra@.len() as int) =~= extra@);
}

fn push_item(bytes: &mut Vec<u8>, item: &SaleLine)
    ensures
        final(bytes)@ == old(bytes)@ + item_bytes(*item),
{
    let mut row = pad_right(item.sku.as_str(), 5);
    push_char(&mut row, ' ');
    row.append(pad_left(item.quantity.as_str(), 5).as_str());
    push_char(&mut row, ' ');
    row.append(pad_right("PZA", 5).as_str());
    push_char(&mut row, ' ');
    row.append(pad_left(item.unit_price.as_str(), 5).as_str());
    push_char(&mut row, ' ');
    row.append(pad_left(item.total.as_str(), 7).as_str());
    assert(row@ =~= item_row(*item));
    push_escpos_text(bytes, row.as_str());
    let mut name_line = fit_text(item.name.as_str(), 32);
    push_char(&mut name_line, ' ');
    push_escpos_text(bytes, name_line.as_str());
    assert(bytes@ =~= old(bytes)@ + item_bytes(*item));
}

fn push_ticket_head(bytes: &mut Vec<u8>, sale: &SaleTicket)
    ensures
        final(bytes)@ == old(bytes)@ + ticket_head(*sale),
{
    let (date, time) = sale_date_time(sale.created_at.as_str());
    push_bytes(bytes, &[0x1b, 0x40, 0x1b, 0x4d, 0x00, 0x1b, 0x61, 0x01, 0x1d, 0x21, 0x00]);
    push_escpos_text(bytes, "FERRETERIA MALOVA, S.A. DE C.V.");
    push_escpos_text(bytes, "SUC NOVIEMBRE");
    push_escpos_text(bytes, "DONDE USTED COMPRA DE CORAZON");
    push_escpos_text(bytes, "BLVD CENTENARIO 2104");
    push_escpos_text(bytes, "LOS ANGELES");
    push_escpos_text(bytes, "R.F.C. FMA850606P44");
    push_escpos_text(bytes, "TEL: (668)2392358");
    let mut date_line = String::from_str("FECHA: ");
    date_line.append(date.as_str());
    date_line.append("  T:");
    date_line.append(fit_text(sale.folio.as_str(), 9).as_str());
    push_escpos_text(bytes, date_line.as_str());
    let mut time_line = String::from_str("HORA: ");
    time_line.append(time.as_str());
    time_line.append("  VEND: 08");
    push_escpos_text(bytes, time_line.as_str());
    push_bytes(bytes, &[0x1b, 0x64, 0x02, 0x1d, 0x21, 0x00]);
    push_escpos_text(bytes, "COD  CANT  ART  PRECIO  IMPORTE");
    push_escpos_text(bytes, "---------------------------------");
    assert(bytes@ =~= old(bytes)@ + ticket_head(*sale));
}

fn push_ticket_tail(bytes: &mut Vec<u8>, sale: &SaleTicket)
    ensures
        final(bytes)@ == old(bytes)@ + ticket_tail(*sale),
{
    push_escpos_text(bytes, "---------------------------------");
    push_bytes(bytes, &[0x1b, 0x61, 0x02, 0x1b, 0x21, 0x08]);
    let mut total_line = String::from_str("T O T A L : ");
    total_line.append(sale.total.as_str());
    push_escpos_text(bytes, total_line.as_str());
    push_bytes(bytes, &[0x1b, 0x21, 0x00, 0x1d, 0x21, 0x00]);
    push_escpos_text(bytes, "");
    push_bytes(bytes, &[0x1b, 0x21, 0x01, 0x1d, 0x21, 0x00, 0x1b, 0x61, 0x01]);
    let mut web_line = String::from_str("*** IDWEB PARA FACTURAR ");
    web_line.append(fit_text(sale.folio.as_str(), 12).as_str());
    web_line.append(" ***");
    push_escpos_text(bytes, web_line.as_str());
    push_bytes(bytes, &[0x1b, 0x21, 0x08]);
    push_escpos_text(bytes, "FACTURA EN");
    push_escpos_text(bytes, "WWW.FERRETERIAMALOVA.COM.MX/FACTURACION");
    push_bytes(bytes, &[0x1b, 0x21, 0x00, 0x1b, 0x21, 0x01]);
    push_escpos_text(bytes, "***GRACIAS POR SU PREFERENCIA***");
    push_escpos_text(bytes, "TODA DEVOLUCION CAUSARA 20% DE");
    push_escpos_text(bytes, "CARGO Y NO SE ACEPTA DESPUES");
    push_escpos_text(bytes, "DE 8 DIAS");
    push_bytes(bytes, &[0x1b, 0x21, 0x00]);
    push_escpos_text(bytes, "---------------------------------");
    push_bytes(bytes, &[0x1d, 0x56, 0x41, 0x03]);
    assert(bytes@ =~= old(bytes)@ + ticket_tail(*sale));
}

/// The ESC/POS bytes of a sale ticket: heading, one row and one name line
/// per article, total, invoicing reference, notes and paper cut.
pub fn sale_escpos_bytes(sale: &SaleTicket) -> (r: Vec<u8>)
    ensures
        r@ == sale_ticket_bytes(*sale),
{
    let mut bytes: Vec<u8> = Vec::new();
    push_ticket_head(&mut bytes, sale);
    let ghost head = bytes@;
    let mut i: usize = 0;
    while i < sale.items.len()
        invariant
            i <= sale.items.len(),
            bytes@ == head + items_bytes(sale.items@.take(i as int)),
        decreases sale.items.len() - i,
    {
        push_item(&mut bytes, &sale.items[i]);
        proof {
            let t = sale.items@.take(i + 1);
            assert(t.drop_last() =~= sale.items@.take(i as int));
            assert(bytes@ =~= head + items_bytes(t));
        }
        i += 1;
    }
    assert(sale.items@.take(sale.items@.len() as int) =~= sale.items@);
    push_ticket_tail(&mut bytes, sale);
    assert(bytes@ =~= sale_ticket_bytes(*sale));
    bytes
}

} // verus!

verus! {

/// Every line of ticket text is plain ASCII and ends with a line feed.
pub proof fn lemma_text_line_is_ascii(s: Seq<char>)
    ensures
        text_line(s).len() >= 1,
        text_line(s).last() == 10,
        forall|i: int| 0 <= i < text_line(s).len() ==> #[trigger] text_line(s)[i] < 128,
{
    lemma_ascii_only_is_ascii(s);
    let a = ascii_only(s);
    assert forall|i: int| 0 <= i < text_line(s).len() implies #[trigger] text_line(s)[i] < 128 by {
        if i < a.len() {
            assert(is_ascii_char(a[i]));
            let u: u32 = a[i] as u32;
            assert(u as u8 == u) by (bit_vector)
                requires u < 128;
            assert(text_line(s)[i] == u as u8);
        }
    }
}

/// The time printed on a ticket never has more than eight characters.
pub proof fn lemma_ticket_time_is_short(created_at: Seq<char>)
    ensures
        ticket_time(created_at).len() <= 8,
{
    reveal_strlit("00:00:00");
}

/// Every article takes two lines that fit the 58 mm paper: a row of
/// exactly 31 columns and a name of at most 33 characters.
pub proof fn lemma_article_lines_fit(item: SaleLine)
    ensures
        item_row(item).len() == 31,
        fitted(item.name@, 32).push(' ').len() <= 33,
{
    lemma_padded_width(item.sku@, 5);
    lemma_padded_width(item.quantity@, 5);
    lemma_padded_width("PZA"@, 5);
    lemma_padded_width(item.unit_price@, 5);
    lemma_padded_width(item.total@, 7);
    lemma_padded_width(item.name@, 32);
}

/// The two lines printed for an article, written out: the columns (code in
/// 5, quantity in 5, `PZA` in 5, unit price in 5, amount in 7, one space
/// between them), then the name fitted to 32 characters and a space.
pub open spec fn article_lines(item: SaleLine) -> Seq<u8> {
    text_line(
        padded_right(item.sku@, 5) + seq![' '] + padded_left(item.quantity@, 5) + seq![' ']
            + padded_right("PZA"@, 5) + seq![' '] + padded_left(item.unit_price@, 5) + seq![' ']
            + padded_left(item.total@, 7),
    ) + text_line(fitted(item.name@, 32).push(' '))
}

proof fn lemma_items_bytes_are_blocks(items: Seq<SaleLine>)
    ensures
        items_bytes(items) == items.map_values(|it: SaleLine| article_lines(it)).flatten(),
    decreases items.len(),
{
    let f = |it: SaleLine| article_lines(it);
    if items.len() == 0 {
        assert(items.map_values(f) =~= Seq::<Seq<u8>>::empty());
    } else {
        let init = items.drop_last();
        lemma_items_bytes_are_blocks(init);
        assert(items.map_values(f) =~= init.map_values(f).push(article_lines(items.last())));
        init.map_values(f).lemma_flatten_push(article_lines(items.last()));
        assert(item_bytes(items.last()) =~= article_lines(items.last()));
    }
}

/// A sale ticket lists every article of the sale, in the sale's order: it
/// is its heading, then one block per article (the `k`-th block being the
/// row and name lines of the `k`-th article, so there are as many blocks as
/// articles), then its closing part.
pub proof fn lemma_ticket_lists_every_article(sale: SaleTicket)
    ensures
        ({
            let blocks = sale.items@.map_values(|it: SaleLine| article_lines(it));
            &&& blocks.len() == sale.items@.len()
            &&& forall|k: int|
                0 <= k < blocks.len() ==> #[trigger] blocks[k] == article_lines(sale.items@[k])
            &&& sale_ticket_bytes(sale) == ticket_head(sale) + blocks.flatten() + ticket_tail(sale)
        }),
{
    lemma_items_bytes_are_blocks(sale.items@);
}

/// The columns of an article row: code in columns 0-4, quantity in 6-10,
/// `PZA` in 12-16, unit price in 18-22 and amount in 24-30, with a space in
/// each of the columns between them; the row line of an article's block is
/// this row, and its second line is the name fitted to 32 characters.
pub proof fn lemma_article_row_columns(item: SaleLine)
    ensures
        item_row(item).len() == 31,
        item_row(item).subrange(0, 5) == padded_right(item.sku@, 5),
        item_row(item).subrange(6, 11) == padded_left(item.quantity@, 5),
        item_row(item).subrange(12, 17) == padded_right("PZA"@, 5),
        item_row(item).subrange(18, 23) == padded_left(item.unit_price@, 5),
        item_row(item).subrange(24, 31) == padded_left(item.total@, 7),
        item_row(item)[5] == ' ' && item_row(item)[11] == ' ' && item_row(item)[17] == ' '
            && item_row(item)[23] == ' ',
        article_lines(item) == text_line(item_row(item)) + text_line(
            fitted(item.name@, 32).push(' '),
        ),
{
    lemma_article_lines_fit(item);
    let r = item_row(item);
    assert(r.subrange(0, 5) =~= padded_right(item.sku@, 5));
    assert(r.subrange(6, 11) =~= padded_left(item.quantity@, 5));
    assert(r.subrange(12, 17) =~= padded_right("PZA"@, 5));
    assert(r.subrange(18, 23) =~= padded_left(item.unit_price@, 5));
    assert(r.subrange(24, 31) =~= padded_left(item.total@, 7));
}

/// Every ticket starts by resetting the printer (`ESC @`) and ends with a
/// full paper cut (`GS V A 3`) right after the closing rule line.
pub proof fn lemma_ticket_starts_with_reset_and_ends_with_cut(sale: SaleTicket)
    ensures
        sale_ticket_bytes(sale).len() >= 6,
        sale_ticket_bytes(sale)[0] == 0x1b && sale_ticket_bytes(sale)[1] == 0x40,
        sale_ticket_bytes(sale).skip(sale_ticket_bytes(sale).len() - 5) == seq![
            10u8,
            0x1d,
            0x56,
            0x41,
            0x03,
        ],
{
    let b = sale_ticket_bytes(sale);
    let head = ticket_head(sale);
    let tail = ticket_tail(sale);
    assert(head[0] == 0x1b && head[1] == 0x40);
    assert(b[0] == head[0] && b[1] == head[1]);
    lemma_text_line_is_ascii(rule_text());
    let last_line = text_line(rule_text());
    assert(tail.skip(tail.len() - 4) =~= seq![0x1du8, 0x56, 0x41, 0x03]);
    assert(tail[tail.len() - 5] == last_line.last());
    assert(tail.skip(tail.len() - 5) =~= seq![10u8, 0x1d, 0x56, 0x41, 0x03]);
    assert(b.skip(b.len() - 5) =~= tail.skip(tail.len() - 5));
}

/// A word of a timestamp: non-empty, without white space and without `T`.
pub open spec fn is_stamp_word(w: Seq<char>) -> bool {
    w.len() > 0 && forall|i: int| 0 <= i < w.len() ==> !is_white_space(#[trigger] w[i]) && w[i] != 'T'
}

/// For a timestamp made of a date word, a `T` or a space, a time word and
/// then nothing or something starting with white space or `T`, the ticket
/// shows that date and at most the first eight characters of that time.
pub proof fn lemma_date_and_time_of_timestamp(
    date: Seq<char>,
    sep: char,
    time: Seq<char>,
    rest: Seq<char>,
)
    requires
        is_stamp_word(date),
        is_stamp_word(time),
        sep == 'T' || sep == ' ',
        rest.len() == 0 || is_white_space(rest[0]) || rest[0] == 'T',
    ensures
        ticket_date(date + seq![sep] + time + rest) == date,
        ticket_time(date + seq![sep] + time + rest) == if time.len() <= 8 {
            time
        } else {
            time.take(8)
        },
{
    let s = date + seq![sep] + time + rest;
    let n = t_as_space(s);
    let d = date.len() as int;
    let t = time.len() as int;
    assert forall|j: int| 0 <= j < d implies n[j] == date[j] && #[trigger] token_pred()(n[j]) by {
        assert(s[j] == date[j]);
    }
    assert(n[d] == ' ');
    assert(is_white_space(' '));
    lemma_run_len(n, white_pred(), 0);
    assert(n.skip(0) =~= n);
    lemma_run_len(n, token_pred(), d);
    assert(n.take(d) =~= date);
    let after = after_first_word(n);
    assert(after =~= n.skip(d));
    assert forall|j: int| 0 <= j < 1 implies #[trigger] white_pred()(after[j]) by {
        assert(after[j] == n[d]);
    }
    assert(after[1] == n[d + 1]);
    assert(s[d + 1] == time[0]);
    lemma_run_len(after, white_pred(), 1);
    let r = after.skip(1);
    assert(r =~= n.skip(d + 1));
    assert forall|j: int| 0 <= j < t implies r[j] == time[j] && #[trigger] token_pred()(r[j]) by {
        assert(s[d + 1 + j] == time[j]);
    }
    if rest.len() > 0 {
        assert(r[t] == n[d + 1 + t]);
        assert(s[d + 1 + t] == rest[0]);
    }
    lemma_run_len(r, token_pred(), t);
    assert(r.take(t) =~= time);
}

} // verus!
