use vstd::prelude::*;
use vstd::string::StrSliceExecFns;

use crate::ident::{dec_int, dec_nat, lemma_dec_nat_digits, push_dec_i32, push_dec_u64};
use crate::sample::TelemetrySample;

verus! {

/// The field separator of the tabular output.
pub const COMMA: u8 = 0x2c;

/// The record terminator of the tabular output.
pub const NEWLINE: u8 = 0x0a;

/// The quote byte of the tabular output.
pub const QUOTE: u8 = 0x22;

/// Carriage return; a cell holding one would be quoted.
pub const CR: u8 = 0x0d;

/// A cell the serializer writes verbatim: free of the separator, quote
/// and terminator bytes, so no quoting or escaping is triggered.
pub open spec fn plain_cell(c: Seq<u8>) -> bool {
    forall|i: int|
        0 <= i < c.len() ==> #[trigger] c[i] != COMMA && c[i] != QUOTE && c[i] != NEWLINE && c[i]
            != CR
}

/// Every cell of a record is plain.
pub open spec fn plain_cells(cells: Seq<Seq<u8>>) -> bool {
    forall|i: int| 0 <= i < cells.len() ==> plain_cell(#[trigger] cells[i])
}

/// One serialized record: the cells joined by commas, terminated by a
/// newline.
pub open spec fn csv_line(cells: Seq<Seq<u8>>) -> Seq<u8>
    decreases cells.len(),
{
    if cells.len() == 0 {
        seq![NEWLINE]
    } else if cells.len() == 1 {
        cells[0] + seq![NEWLINE]
    } else {
        cells[0] + seq![COMMA] + csv_line(cells.drop_first())
    }
}

/// The characters of an ASCII string, one byte each.
pub open spec fn ascii_bytes(s: Seq<char>) -> Seq<u8> {
    Seq::new(s.len(), |i: int| s[i] as u8)
}

/// The lower-case hexadecimal digit for one value below sixteen.
pub open spec fn hex_digit(d: int) -> u8 {
    if d < 10 {
        (0x30 + d) as u8
    } else {
        (0x61 + (d - 10)) as u8
    }
}

/// The lower-case hexadecimal spelling of a byte sequence, two digits
/// per byte: a lossless, comma-free rendering of the opaque payload.
pub open spec fn hex_bytes(b: Seq<u8>) -> Seq<u8> {
    Seq::new(
        b.len() * 2,
        |i: int|
            if i % 2 == 0 {
                hex_digit(b[i / 2] as int / 16)
            } else {
                hex_digit(b[i / 2] as int % 16)
            },
    )
}

/// The header row's cells: the column names, in the fixed column order.
pub open spec fn header_cells() -> Seq<Seq<u8>> {
    seq![
        ascii_bytes("track_position"@),
        ascii_bytes("vehicle_class_index"@),
        ascii_bytes("vehicle_ordinal"@),
        ascii_bytes("record_hex"@),
    ]
}

/// The cells of the output row for one sample, in the fixed column
/// order: the decoded core fields, then the record's bytes verbatim in
/// hexadecimal.
pub open spec fn row_cells(s: TelemetrySample) -> Seq<Seq<u8>> {
    seq![
        dec_nat(s.track_position as nat),
        dec_int(s.vehicle_class_index as int),
        dec_int(s.vehicle_ordinal as int),
        hex_bytes(s.raw@),
    ]
}

/// The serialized rows of a session, in arrival order.
pub open spec fn rows_doc(rows: Seq<TelemetrySample>) -> Seq<u8>
    decreases rows.len(),
{
    if rows.len() == 0 {
        Seq::empty()
    } else {
        rows_doc(rows.drop_last()) + csv_line(row_cells(rows.last()))
    }
}

/// The whole file content for a finished session: the header row, then
/// one row per buffered sample.
pub open spec fn session_doc(rows: Seq<TelemetrySample>) -> Seq<u8> {
    csv_line(header_cells()) + rows_doc(rows)
}

/// The serializer for one session's rows: a csv writer over an
/// in-memory buffer. Opaque to the verifier; its state is spoken of
/// through `writer_bytes` and `writer_width`.
#[verifier::external_body]
pub struct RowWriter {
    inner: csv::Writer<Vec<u8>>,
}

/// The bytes the serializer has accepted so far for its in-memory
/// target.
pub uninterp spec fn writer_bytes(w: RowWriter) -> Seq<u8>;

/// The field count the serializer fixed with its first record, if any:
/// it refuses records of any other width.
pub uninterp spec fn writer_width(w: RowWriter) -> Option<nat>;

/// Relies on csv::Writer::from_writer: a fresh writer has written
/// nothing and has not yet fixed a record width.
#[verifier::external_body]
fn new_writer() -> (w: RowWriter)
    ensures
        writer_bytes(w) == Seq::<u8>::empty(),
        writer_width(w) is None,
{
    RowWriter { inner: csv::Writer::from_writer(Vec::new()) }
}

/// Relies on csv::Writer::write_record: with the default comma
/// delimiter, newline terminator and quote-when-necessary style, plain
/// cells are written verbatim, joined by commas and terminated by one
/// newline. Writing to an in-memory target cannot fail once the
/// record's width matches the one the writer fixed with its first
/// record, which the caller must ensure; the first record fixes it.
#[verifier::external_body]
fn write_record(w: &mut RowWriter, cells: &Vec<Vec<u8>>)
    requires
        plain_cells(cells@.map_values(|c: Vec<u8>| c@)),
        cells@.len() > 0,
        cells@.len() == 1 ==> cells@[0]@.len() > 0,
        writer_width(*old(w)) is None || writer_width(*old(w)) == Some(cells@.len() as nat),
    ensures
        writer_bytes(*final(w)) == writer_bytes(*old(w)) + csv_line(
            cells@.map_values(|c: Vec<u8>| c@),
        ),
        writer_width(*final(w)) == Some(cells@.len() as nat),
{
    w.inner.write_record(cells).unwrap();
}

/// Relies on csv::Writer::into_inner: it flushes and hands back the
/// in-memory target, which cannot fail for an in-memory target and
/// holds exactly the accepted bytes.
#[verifier::external_body]
fn writer_into_bytes(w: RowWriter) -> (r: Vec<u8>)
    ensures
        r@ == writer_bytes(w),
{
    w.inner.into_inner().unwrap()
}

/// A decimal spelling, sign included, is a plain cell.
proof fn lemma_dec_int_plain(n: int)
    ensures
        plain_cell(dec_int(n)),
{
    crate::ident::lemma_dec_int_bytes(n);
}

/// A hexadecimal spelling is a plain cell.
proof fn lemma_hex_plain(b: Seq<u8>)
    ensures
        plain_cell(hex_bytes(b)),
{
    assert forall|i: int| 0 <= i < hex_bytes(b).len() implies #[trigger] hex_bytes(b)[i] != COMMA
        && hex_bytes(b)[i] != QUOTE && hex_bytes(b)[i] != NEWLINE && hex_bytes(b)[i] != CR by {
        let d = if i % 2 == 0 {
            b[i / 2] as int / 16
        } else {
            b[i / 2] as int % 16
        };
        assert(0 <= d < 16);
        assert(hex_bytes(b)[i] == hex_digit(d));
    }
}

/// Every cell of a sample's row is plain.
proof fn lemma_row_cells_plain(s: TelemetrySample)
    ensures
        plain_cells(row_cells(s)),
{
    lemma_dec_nat_digits(s.track_position as nat);
    lemma_dec_int_plain(s.vehicle_class_index as int);
    lemma_dec_int_plain(s.vehicle_ordinal as int);
    lemma_hex_plain(s.raw@);
}

/// The header's column names are plain cells.
proof fn lemma_header_plain()
    ensures
        plain_cells(header_cells()),
{
    reveal_strlit("track_position");
    reveal_strlit("vehicle_class_index");
    reveal_strlit("vehicle_ordinal");
    reveal_strlit("record_hex");
    assert(plain_cell(ascii_bytes("track_position"@)));
    assert(plain_cell(ascii_bytes("vehicle_class_index"@)));
    assert(plain_cell(ascii_bytes("vehicle_ordinal"@)));
    assert(plain_cell(ascii_bytes("record_hex"@)));
}

/// How many record terminators a byte sequence holds.
pub open spec fn count_newlines(s: Seq<u8>) -> nat
    decreases s.len(),
{
    if s.len() == 0 {
        0
    } else {
        count_newlines(s.drop_last()) + (if s.last() == NEWLINE {
            1nat
        } else {
            0nat
        })
    }
}

/// Terminator counts add over concatenation.
proof fn lemma_count_concat(a: Seq<u8>, b: Seq<u8>)
    ensures
        count_newlines(a + b) == count_newlines(a) + count_newlines(b),
    decreases b.len(),
{
    if b.len() == 0 {
        assert(a + b =~= a);
    } else {
        lemma_count_concat(a, b.drop_last());
        assert((a + b).drop_last() =~= a + b.drop_last());
        assert((a + b).last() == b.last());
    }
}

/// A plain cell holds no record terminator.
proof fn lemma_plain_cell_no_newline(c: Seq<u8>)
    requires
        forall|i: int| 0 <= i < c.len() ==> #[trigger] c[i] != NEWLINE,
    ensures
        count_newlines(c) == 0,
    decreases c.len(),
{
    if c.len() > 0 {
        lemma_plain_cell_no_newline(c.drop_last());
    }
}

/// A record of plain cells is serialized as exactly one line.
proof fn lemma_csv_line_one_newline(cells: Seq<Seq<u8>>)
    requires
        plain_cells(cells),
    ensures
        count_newlines(csv_line(cells)) == 1,
    decreases cells.len(),
{
    assert(count_newlines(Seq::<u8>::empty()) == 0);
    assert(seq![NEWLINE].drop_last() =~= Seq::<u8>::empty());
    assert(seq![NEWLINE].last() == NEWLINE);
    assert(count_newlines(seq![NEWLINE]) == 1);
    assert(seq![COMMA].drop_last() =~= Seq::<u8>::empty());
    assert(seq![COMMA].last() == COMMA);
    assert(count_newlines(seq![COMMA]) == 0);
    if cells.len() == 0 {
    } else if cells.len() == 1 {
        assert(plain_cell(cells[0]));
        lemma_plain_cell_no_newline(cells[0]);
        lemma_count_concat(cells[0], seq![NEWLINE]);
    } else {
        assert forall|i: int| 0 <= i < cells.drop_first().len() implies plain_cell(
            #[trigger] cells.drop_first()[i],
        ) by {
            assert(cells.drop_first()[i] == cells[i + 1]);
            assert(plain_cell(cells[i + 1]));
        }
        lemma_csv_line_one_newline(cells.drop_first());
        assert(plain_cell(cells[0]));
        lemma_plain_cell_no_newline(cells[0]);
        lemma_count_concat(cells[0], seq![COMMA]);
        lemma_count_concat(cells[0] + seq![COMMA], csv_line(cells.drop_first()));
    }
}

/// A committed session's document holds exactly one line per buffered
/// row, after the one header line: the file's row count equals the
/// number of in-session samples, with no drops and no duplicates.
pub proof fn lemma_doc_line_count(rows: Seq<TelemetrySample>)
    ensures
        count_newlines(session_doc(rows)) == rows.len() + 1,
{
    lemma_header_plain();
    lemma_csv_line_one_newline(header_cells());
    lemma_rows_doc_line_count(rows);
    lemma_count_concat(csv_line(header_cells()), rows_doc(rows));
}

/// The serialized rows alone hold one line per row.
proof fn lemma_rows_doc_line_count(rows: Seq<TelemetrySample>)
    ensures
        count_newlines(rows_doc(rows)) == rows.len(),
    decreases rows.len(),
{
    if rows.len() > 0 {
        lemma_rows_doc_line_count(rows.drop_last());
        lemma_row_cells_plain(rows.last());
        lemma_csv_line_one_newline(row_cells(rows.last()));
        lemma_count_concat(rows_doc(rows.drop_last()), csv_line(row_cells(rows.last())));
    }
}

/// Builds the header row's cells.
fn header_cells_exec() -> (r: Vec<Vec<u8>>)
    ensures
        r@.map_values(|c: Vec<u8>| c@) == header_cells(),
{
    let c0 = ("track_position").as_bytes_vec();
    let c1 = ("vehicle_class_index").as_bytes_vec();
    let c2 = ("vehicle_ordinal").as_bytes_vec();
    let c3 = ("record_hex").as_bytes_vec();
    proof {
        reveal_strlit("track_position");
        reveal_strlit("vehicle_class_index");
        reveal_strlit("vehicle_ordinal");
        reveal_strlit("record_hex");
        assert(vstd::utf8::is_ascii_chars("track_position"@));
        assert(vstd::utf8::is_ascii_chars("vehicle_class_index"@));
        assert(vstd::utf8::is_ascii_chars("vehicle_ordinal"@));
        assert(vstd::utf8::is_ascii_chars("record_hex"@));
        vstd::string::is_ascii_spec_bytes("track_position");
        vstd::string::is_ascii_spec_bytes("vehicle_class_index");
        vstd::string::is_ascii_spec_bytes("vehicle_ordinal");
        vstd::string::is_ascii_spec_bytes("record_hex");
        assert(c0@ =~= ascii_bytes("track_position"@));
        assert(c1@ =~= ascii_bytes("vehicle_class_index"@));
        assert(c2@ =~= ascii_bytes("vehicle_ordinal"@));
        assert(c3@ =~= ascii_bytes("record_hex"@));
    }
    let mut r: Vec<Vec<u8>> = Vec::new();
    r.push(c0);
    r.push(c1);
    r.push(c2);
    r.push(c3);
    proof {
        assert(r@.map_values(|c: Vec<u8>| c@) =~= header_cells());
    }
    r
}

/// The lower-case hexadecimal digit for one value below sixteen.
fn hex_digit_exec(d: u8) -> (r: u8)
    requires
        d < 16,
    ensures
        r == hex_digit(d as int),
{
    if d < 10 {
        0x30 + d
    } else {
        0x61 + (d - 10)
    }
}

/// Renders a byte buffer in lower-case hexadecimal, two digits per
/// byte.
fn hex_cell(b: &Vec<u8>) -> (r: Vec<u8>)
    ensures
        r@ == hex_bytes(b@),
{
    let n = b.len();
    let mut r: Vec<u8> = Vec::new();
    let mut i: usize = 0;
    while i < n
        invariant
            n == b@.len(),
            i <= n,
            r@ == hex_bytes(b@.take(i as int)),
        decreases n - i,
    {
        let by = b[i];
        r.push(hex_digit_exec(by / 16));
        r.push(hex_digit_exec(by % 16));
        proof {
            assert(r@ =~= hex_bytes(b@.take(i as int + 1)));
        }
        i += 1;
    }
    proof {
        assert(b@.take(n as int) =~= b@);
    }
    r
}

/// Builds the output row's cells for one sample.
fn row_cells_exec(s: &TelemetrySample) -> (r: Vec<Vec<u8>>)
    ensures
        r@.map_values(|c: Vec<u8>| c@) == row_cells(*s),
{
    let mut c0: Vec<u8> = Vec::new();
    push_dec_u64(&mut c0, s.track_position as u64);
    let mut c1: Vec<u8> = Vec::new();
    push_dec_i32(&mut c1, s.vehicle_class_index);
    let mut c2: Vec<u8> = Vec::new();
    push_dec_i32(&mut c2, s.vehicle_ordinal);
    let c3 = hex_cell(&s.raw);
    let mut r: Vec<Vec<u8>> = Vec::new();
    r.push(c0);
    r.push(c1);
    r.push(c2);
    r.push(c3);
    proof {
        assert(r@.map_values(|c: Vec<u8>| c@) =~= row_cells(*s));
    }
    r
}

/// Serializes a whole session in one shot: the header row, then one row
/// per sample, in arrival order. The serializer writes to memory and
/// every record has the header's width, so serialization cannot fail
/// and a partial document never exists.
pub fn encode_session(rows: &Vec<TelemetrySample>) -> (r: Vec<u8>)
    ensures
        r@ == session_doc(rows@),
{
    let mut w = new_writer();
    let hdr = header_cells_exec();
    proof {
        lemma_header_plain();
        assert(hdr@.map_values(|c: Vec<u8>| c@).len() == 4);
    }
    write_record(&mut w, &hdr);
    let n = rows.len();
    let mut i: usize = 0;
    while i < n
        invariant
            n == rows@.len(),
            i <= n,
            writer_bytes(w) == session_doc(rows@.take(i as int)),
            writer_width(w) == Some(4nat),
        decreases n - i,
    {
        let cells = row_cells_exec(&rows[i]);
        proof {
            lemma_row_cells_plain(rows@[i as int]);
            assert(cells@.map_values(|c: Vec<u8>| c@).len() == 4);
        }
        write_record(&mut w, &cells);
        proof {
            let pre = rows@.take(i as int);
            let post = rows@.take(i as int + 1);
            assert(post.drop_last() =~= pre);
            assert(post.last() == rows@[i as int]);
            assert(writer_bytes(w) =~= session_doc(post));
        }
        i += 1;
    }
    proof {
        assert(rows@.take(n as int) =~= rows@);
    }
    writer_into_bytes(w)
}

} // verus!
