//! The orders export: one CSV row per order, for the people who fulfil them.

use vstd::prelude::*;
use vstd::string::StringExecFns;

use crate::api::{cents_text, format_cents, status_name, Delivery, OrderLine, ShipTo};
use crate::orders::OrderRow;
use crate::text::{decimal, join_spec, string_of, u64_decimal};

verus! {

/// A character that makes `csv::Writer` quote a field: the delimiter `,`, the quote `"`,
/// or a line break.
pub open spec fn csv_special(c: char) -> bool {
    c == ',' || c == '"' || c == '\r' || c == '\n'
}

/// `f` with each `"` doubled.
pub open spec fn double_quotes(f: Seq<char>) -> Seq<char>
    decreases f.len(),
{
    if f.len() == 0 {
        f
    } else {
        double_quotes(f.drop_last()) + if f.last() == '"' {
            seq!['"', '"']
        } else {
            seq![f.last()]
        }
    }
}

/// A field as written: in double quotes, with its quotes doubled, when it holds a special
/// character; as it is otherwise.
pub open spec fn csv_field(f: Seq<char>) -> Seq<char> {
    if exists|i: int| 0 <= i < f.len() && csv_special(#[trigger] f[i]) {
        seq!['"'] + double_quotes(f) + seq!['"']
    } else {
        f
    }
}

/// The text of one record: its fields joined by `,` (`""` where that leaves nothing), then
/// a `\n`.
pub open spec fn csv_record_text(fields: Seq<Seq<char>>) -> Seq<char> {
    let body = join_spec(fields.map_values(|f: Seq<char>| csv_field(f)), seq![',']);
    (if body.len() == 0 {
        seq!['"', '"']
    } else {
        body
    }) + seq!['\n']
}

/// What `csv::Writer` writes for one record: its text in UTF-8.
pub open spec fn csv_record_bytes(fields: Seq<Seq<char>>) -> Seq<u8> {
    vstd::utf8::encode_utf8(csv_record_text(fields))
}

pub open spec fn strings_view(v: Seq<String>) -> Seq<Seq<char>> {
    v.map_values(|s: String| s@)
}

/// `csv::Writer::from_writer(Vec::new())`, `write_record(fields)`, `into_inner()`.
/// Trusted: with csv's default writer (delimiter `,`, quote `"` doubled inside a quoted
/// field, quotes only where a field holds `,`, `"`, `\r` or `\n`, terminator `\n`, and `""`
/// for a record that would otherwise write nothing), the bytes are `csv_record_bytes` of the
/// fields. Writing into a `Vec` does not fail, and a fresh writer has no earlier record
/// whose field count this one could break.
#[verifier::external_body]
fn csv_record(fields: &Vec<String>) -> (r: Vec<u8>)
    ensures
        r@ == csv_record_bytes(strings_view(fields@)),
{
    let mut w = csv::Writer::from_writer(Vec::new());
    match w.write_record(fields) {
        Ok(()) => w.into_inner().unwrap_or_default(),
        Err(_) => Vec::new(),
    }
}

pub open spec fn csv_bytes(records: Seq<Seq<Seq<char>>>) -> Seq<u8>
    decreases records.len(),
{
    if records.len() == 0 {
        Seq::empty()
    } else {
        csv_bytes(records.drop_last()) + csv_record_bytes(records.last())
    }
}

pub open spec fn header_record() -> Seq<Seq<char>> {
    seq![
        "order_id"@,
        "status"@,
        "paid_at"@,
        "buyer_name"@,
        "email"@,
        "phone"@,
        "scout_name"@,
        "total"@,
        "items"@,
        "delivery_address"@,
        "delivery_notes"@,
        "ship_to"@,
        "gift_message"@,
        "review_reason"@,
    ]
}

pub open spec fn or_empty(o: Option<String>) -> Seq<char> {
    match o {
        Some(s) => s@,
        None => Seq::empty(),
    }
}

/// `2x Wreath`.
pub open spec fn line_text(l: OrderLine) -> Seq<char> {
    decimal(l.qty as nat) + "x "@ + l.name@
}

/// The lines of an order, `; ` between them.
pub open spec fn items_text(lines: Seq<OrderLine>) -> Seq<char>
    decreases lines.len(),
{
    if lines.len() == 0 {
        Seq::empty()
    } else if lines.len() == 1 {
        line_text(lines[0])
    } else {
        items_text(lines.drop_last()) + "; "@ + line_text(lines.last())
    }
}

/// `street, city, state zip`.
pub open spec fn delivery_text(d: Option<Delivery>) -> Seq<char> {
    match d {
        Some(d) => d.street@ + ", "@ + d.city@ + ", "@ + d.state@ + " "@ + d.zip@,
        None => Seq::empty(),
    }
}

pub open spec fn delivery_notes_text(d: Option<Delivery>) -> Seq<char> {
    match d {
        Some(d) => or_empty(d.notes),
        None => Seq::empty(),
    }
}

/// `name, line1[, line2], city, state postal_code`.
pub open spec fn ship_to_text(s: Option<ShipTo>) -> Seq<char> {
    match s {
        Some(s) => {
            let street = match s.line2 {
                Some(l2) => s.line1@ + ", "@ + l2@,
                None => s.line1@,
            };
            s.name@ + ", "@ + street + ", "@ + s.city@ + ", "@ + s.state@ + " "@ + s.postal_code@
        },
        None => Seq::empty(),
    }
}

/// The row of one order.
pub open spec fn order_record(o: OrderRow) -> Seq<Seq<char>> {
    seq![
        o.id@,
        status_name(o.status),
        or_empty(o.paid_at),
        o.buyer_name@,
        o.email@,
        o.phone@,
        or_empty(o.scout_name),
        cents_text(o.total_cents as int),
        items_text(o.lines@),
        delivery_text(o.delivery),
        delivery_notes_text(o.delivery),
        ship_to_text(o.ship_to),
        or_empty(o.gift_message),
        or_empty(o.review_reason),
    ]
}

/// In a table with header `h` and row `r`, the column named `name` holds `v`: some column
/// of that name does, and every column of that name does.
pub open spec fn column_is(h: Seq<Seq<char>>, r: Seq<Seq<char>>, name: Seq<char>, v: Seq<char>) -> bool {
    &&& exists|k: int| 0 <= k < h.len() && k < r.len() && h[k] == name && r[k] == v
    &&& forall|k: int| 0 <= k < h.len() && #[trigger] h[k] == name ==> k < r.len() && r[k] == v
}

/// An order's row lines up with the header: it has one cell per column, and each column
/// holds the order's field of that name: its id, status, payment time, buyer, email, phone,
/// the scout it credits, total, items, delivery address and notes, gift recipient, gift
/// message and review reason (empty where the order has none).
#[verifier::rlimit(60)]
pub proof fn lemma_row_matches_header(o: OrderRow)
    ensures
        order_record(o).len() == header_record().len(),
        column_is(header_record(), order_record(o), "order_id"@, o.id@),
        column_is(header_record(), order_record(o), "status"@, status_name(o.status)),
        column_is(header_record(), order_record(o), "paid_at"@, match o.paid_at { Some(v) => v@, None => Seq::<char>::empty() }),
        column_is(header_record(), order_record(o), "buyer_name"@, o.buyer_name@),
        column_is(header_record(), order_record(o), "email"@, o.email@),
        column_is(header_record(), order_record(o), "phone"@, o.phone@),
        column_is(header_record(), order_record(o), "scout_name"@, match o.scout_name { Some(v) => v@, None => Seq::<char>::empty() }),
        column_is(header_record(), order_record(o), "total"@, cents_text(o.total_cents as int)),
        column_is(header_record(), order_record(o), "items"@, items_text(o.lines@)),
        column_is(header_record(), order_record(o), "delivery_address"@, delivery_text(o.delivery)),
        column_is(header_record(), order_record(o), "delivery_notes"@, match o.delivery { Some(d) => match d.notes { Some(v) => v@, None => Seq::<char>::empty() }, None => Seq::<char>::empty() }),
        column_is(header_record(), order_record(o), "ship_to"@, ship_to_text(o.ship_to)),
        column_is(header_record(), order_record(o), "gift_message"@, match o.gift_message { Some(v) => v@, None => Seq::<char>::empty() }),
        column_is(header_record(), order_record(o), "review_reason"@, match o.review_reason { Some(v) => v@, None => Seq::<char>::empty() }),
{
    reveal_strlit("order_id");
    reveal_strlit("status");
    reveal_strlit("paid_at");
    reveal_strlit("buyer_name");
    reveal_strlit("email");
    reveal_strlit("phone");
    reveal_strlit("scout_name");
    reveal_strlit("total");
    reveal_strlit("items");
    reveal_strlit("delivery_address");
    reveal_strlit("delivery_notes");
    reveal_strlit("ship_to");
    reveal_strlit("gift_message");
    reveal_strlit("review_reason");
    let h = header_record();
    let r = order_record(o);
    assert(h[0].len() == 8 && h[0][0] == 'o');
    assert(h[1].len() == 6 && h[1][0] == 's');
    assert(h[2].len() == 7 && h[2][0] == 'p');
    assert(h[3].len() == 10 && h[3][0] == 'b');
    assert(h[4].len() == 5 && h[4][0] == 'e');
    assert(h[5].len() == 5 && h[5][0] == 'p');
    assert(h[6].len() == 10 && h[6][0] == 's');
    assert(h[7].len() == 5 && h[7][0] == 't');
    assert(h[8].len() == 5 && h[8][0] == 'i');
    assert(h[9].len() == 16 && h[9][0] == 'd');
    assert(h[10].len() == 14 && h[10][0] == 'd');
    assert(h[11].len() == 7 && h[11][0] == 's');
    assert(h[12].len() == 12 && h[12][0] == 'g');
    assert(h[13].len() == 13 && h[13][0] == 'r');
    assert forall|i: int| 0 <= i < h.len() && #[trigger] h[i] == "order_id"@ implies i == 0 by {
        assert(h[i].len() == 8 && h[i][0] == 'o');
    }
    assert(r[0] == o.id@);
    assert forall|i: int| 0 <= i < h.len() && #[trigger] h[i] == "status"@ implies i == 1 by {
        assert(h[i].len() == 6 && h[i][0] == 's');
    }
    assert(r[1] == status_name(o.status));
    assert forall|i: int| 0 <= i < h.len() && #[trigger] h[i] == "paid_at"@ implies i == 2 by {
        assert(h[i].len() == 7 && h[i][0] == 'p');
    }
    assert(r[2] == match o.paid_at { Some(v) => v@, None => Seq::<char>::empty() });
    assert forall|i: int| 0 <= i < h.len() && #[trigger] h[i] == "buyer_name"@ implies i == 3 by {
        assert(h[i].len() == 10 && h[i][0] == 'b');
    }
    assert(r[3] == o.buyer_name@);
    assert forall|i: int| 0 <= i < h.len() && #[trigger] h[i] == "email"@ implies i == 4 by {
        assert(h[i].len() == 5 && h[i][0] == 'e');
    }
    assert(r[4] == o.email@);
    assert forall|i: int| 0 <= i < h.len() && #[trigger] h[i] == "phone"@ implies i == 5 by {
        assert(h[i].len() == 5 && h[i][0] == 'p');
    }
    assert(r[5] == o.phone@);
    assert forall|i: int| 0 <= i < h.len() && #[trigger] h[i] == "scout_name"@ implies i == 6 by {
        assert(h[i].len() == 10 && h[i][0] == 's');
    }
    assert(r[6] == match o.scout_name { Some(v) => v@, None => Seq::<char>::empty() });
    assert forall|i: int| 0 <= i < h.len() && #[trigger] h[i] == "total"@ implies i == 7 by {
        assert(h[i].len() == 5 && h[i][0] == 't');
    }
    assert(r[7] == cents_text(o.total_cents as int));
    assert forall|i: int| 0 <= i < h.len() && #[trigger] h[i] == "items"@ implies i == 8 by {
        assert(h[i].len() == 5 && h[i][0] == 'i');
    }
    assert(r[8] == items_text(o.lines@));
    assert forall|i: int| 0 <= i < h.len() && #[trigger] h[i] == "delivery_address"@ implies i == 9 by {
        assert(h[i].len() == 16 && h[i][0] == 'd');
    }
    assert(r[9] == delivery_text(o.delivery));
    assert forall|i: int| 0 <= i < h.len() && #[trigger] h[i] == "delivery_notes"@ implies i == 10 by {
        assert(h[i].len() == 14 && h[i][0] == 'd');
    }
    assert(r[10] == match o.delivery { Some(d) => match d.notes { Some(v) => v@, None => Seq::<char>::empty() }, None => Seq::<char>::empty() });
    assert forall|i: int| 0 <= i < h.len() && #[trigger] h[i] == "ship_to"@ implies i == 11 by {
        assert(h[i].len() == 7 && h[i][0] == 's');
    }
    assert(r[11] == ship_to_text(o.ship_to));
    assert forall|i: int| 0 <= i < h.len() && #[trigger] h[i] == "gift_message"@ implies i == 12 by {
        assert(h[i].len() == 12 && h[i][0] == 'g');
    }
    assert(r[12] == match o.gift_message { Some(v) => v@, None => Seq::<char>::empty() });
    assert forall|i: int| 0 <= i < h.len() && #[trigger] h[i] == "review_reason"@ implies i == 13 by {
        assert(h[i].len() == 13 && h[i][0] == 'r');
    }
    assert(r[13] == match o.review_reason { Some(v) => v@, None => Seq::<char>::empty() });
}

pub open spec fn order_records(orders: Seq<OrderRow>) -> Seq<Seq<Seq<char>>> {
    orders.map_values(|o: OrderRow| order_record(o))
}

/// The UTF-8 byte-order mark, so that spreadsheet programs read the file as UTF-8.
pub open spec fn bom() -> Seq<u8> {
    seq![0xEFu8, 0xBBu8, 0xBFu8]
}

#[derive(Debug)]
pub struct ExportError {
    pub message: String,
}

fn text_or_empty(o: &Option<String>) -> (r: String)
    ensures
        r@ == or_empty(*o),
{
    match o {
        Some(s) => s.clone(),
        None => String::new(),
    }
}

fn items_cell(lines: &Vec<OrderLine>) -> (r: String)
    ensures
        r@ == items_text(lines@),
{
    let mut r = String::new();
    let mut i: usize = 0;
    while i < lines.len()
        invariant
            i <= lines.len(),
            r@ == items_text(lines@.take(i as int)),
        decreases lines.len() - i,
    {
        assert(lines@.take(i + 1).drop_last() =~= lines@.take(i as int));
        assert(lines@.take(i + 1).last() == lines@[i as int]);
        if i > 0 {
            r.append("; ");
        }
        r.append(string_of(&u64_decimal(lines[i].qty as u64)).as_str());
        r.append("x ");
        r.append(lines[i].name.as_str());
        if i == 0 {
            assert(lines@.take(1)[0] == lines@[0]);
        }
        i = i + 1;
    }
    assert(lines@.take(lines.len() as int) =~= lines@);
    r
}

fn delivery_cell(d: &Option<Delivery>) -> (r: String)
    ensures
        r@ == delivery_text(*d),
{
    match d {
        Some(d) => {
            let mut r = d.street.clone();
            r.append(", ");
            r.append(d.city.as_str());
            r.append(", ");
            r.append(d.state.as_str());
            r.append(" ");
            r.append(d.zip.as_str());
            r
        },
        None => String::new(),
    }
}

fn delivery_notes_cell(d: &Option<Delivery>) -> (r: String)
    ensures
        r@ == delivery_notes_text(*d),
{
    match d {
        Some(d) => text_or_empty(&d.notes),
        None => String::new(),
    }
}

fn ship_to_cell(s: &Option<ShipTo>) -> (r: String)
    ensures
        r@ == ship_to_text(*s),
{
    match s {
        Some(s) => {
            let mut r = s.name.clone();
            r.append(", ");
            r.append(s.line1.as_str());
            match &s.line2 {
                Some(l2) => {
                    r.append(", ");
                    r.append(l2.as_str());
                },
                None => {},
            }
            r.append(", ");
            r.append(s.city.as_str());
            r.append(", ");
            r.append(s.state.as_str());
            r.append(" ");
            r.append(s.postal_code.as_str());
            r
        },
        None => String::new(),
    }
}

/// The CSV fields of one order.
pub fn csv_row(o: &OrderRow) -> (r: Vec<String>)
    requires
        o.total_cents != i64::MIN,
    ensures
        strings_view(r@) == order_record(*o),
{
    let mut r: Vec<String> = Vec::new();
    r.push(o.id.clone());
    r.push(String::from_str(o.status.as_str()));
    r.push(text_or_empty(&o.paid_at));
    r.push(o.buyer_name.clone());
    r.push(o.email.clone());
    r.push(o.phone.clone());
    r.push(text_or_empty(&o.scout_name));
    r.push(format_cents(o.total_cents));
    r.push(items_cell(&o.lines));
    r.push(delivery_cell(&o.delivery));
    r.push(delivery_notes_cell(&o.delivery));
    r.push(ship_to_cell(&o.ship_to));
    r.push(text_or_empty(&o.gift_message));
    r.push(text_or_empty(&o.review_reason));
    assert(strings_view(r@) =~= order_record(*o));
    r
}

/// The CSV header.
pub fn csv_header() -> (r: Vec<String>)
    ensures
        strings_view(r@) == header_record(),
{
    let mut r: Vec<String> = Vec::new();
    r.push(String::from_str("order_id"));
    r.push(String::from_str("status"));
    r.push(String::from_str("paid_at"));
    r.push(String::from_str("buyer_name"));
    r.push(String::from_str("email"));
    r.push(String::from_str("phone"));
    r.push(String::from_str("scout_name"));
    r.push(String::from_str("total"));
    r.push(String::from_str("items"));
    r.push(String::from_str("delivery_address"));
    r.push(String::from_str("delivery_notes"));
    r.push(String::from_str("ship_to"));
    r.push(String::from_str("gift_message"));
    r.push(String::from_str("review_reason"));
    assert(strings_view(r@) =~= header_record());
    r
}

fn append_bytes(out: &mut Vec<u8>, b: &Vec<u8>)
    ensures
        final(out)@ == old(out)@ + b@,
{
    let mut i: usize = 0;
    while i < b.len()
        invariant
            i <= b.len(),
            out@ == old(out)@ + b@.take(i as int),
        decreases b.len() - i,
    {
        out.push(b[i]);
        i = i + 1;
        assert(out@ =~= old(out)@ + b@.take(i as int));
    }
    assert(b@.take(b@.len() as int) =~= b@);
}

/// Writes the orders as CSV after a UTF-8 byte-order mark: a header row, then one row per
/// order with its lines in one `items` column (`2x Wreath; 1x Boxed Wreath`), its delivery
/// address and its gift recipient's address each in one column.
pub fn write_csv(orders: &Vec<OrderRow>, out: &mut Vec<u8>) -> (r: Result<(), ExportError>)
    requires
        forall|i: int| 0 <= i < orders@.len() ==> (#[trigger] orders@[i]).total_cents != i64::MIN,
    ensures
        r is Ok,
        final(out)@ == old(out)@ + bom() + csv_bytes(
            seq![header_record()] + order_records(orders@),
        ),
{
    out.push(0xEFu8);
    out.push(0xBBu8);
    out.push(0xBFu8);
    let ghost start = out@;
    assert(start =~= old(out)@ + bom());
    let header = csv_header();
    let bytes = csv_record(&header);
    append_bytes(out, &bytes);
    let ghost records = seq![header_record()] + order_records(orders@);
    assert(records.take(1).drop_last() =~= Seq::<Seq<Seq<char>>>::empty());
    assert(records.take(1).last() == header_record());
    assert(csv_bytes(records.take(1)) == csv_bytes(Seq::<Seq<Seq<char>>>::empty()) + bytes@);
    assert(Seq::<u8>::empty() + bytes@ =~= bytes@);
    assert(out@ == start + csv_bytes(records.take(1)));
    let mut i: usize = 0;
    while i < orders.len()
        invariant
            i <= orders.len(),
            forall|k: int| 0 <= k < orders@.len() ==> (#[trigger] orders@[k]).total_cents
                != i64::MIN,
            records == seq![header_record()] + order_records(orders@),
            out@ == start + csv_bytes(records.take(i + 1)),
        decreases orders.len() - i,
    {
        let fields = csv_row(&orders[i]);
        let bytes = csv_record(&fields);
        append_bytes(out, &bytes);
        assert(records.take(i + 2).drop_last() =~= records.take(i + 1));
        assert(records.take(i + 2).last() == records[i + 1]);
        assert(records[i + 1] == order_record(orders@[i as int]));
        i = i + 1;
    }
    assert(records.take(orders.len() + 1) =~= records);
    Ok(())
}

} // verus!
