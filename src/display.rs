//! A packet drawn as a two-row text table: field names above, the bytes in
//! hexadecimal below.
use crate::protocol::{FRAME_OVERHEAD, PACKET};
use vstd::prelude::*;
use vstd::string::{StrSliceExecFns, StringExecFns};

verus! {

/// The digits, in order of value.
pub open spec fn digit_chars() -> Seq<char> {
    seq!['0', '1', '2', '3', '4', '5', '6', '7', '8', '9', 'A', 'B', 'C', 'D', 'E', 'F']
}

/// Two upper-case hexadecimal digits.
pub open spec fn hex_text(b: u8) -> Seq<char> {
    seq![digit_chars()[(b / 16) as int], digit_chars()[(b % 16) as int]]
}

/// The decimal digits of `n`, without leading zeros.
pub open spec fn decimal_text(n: nat) -> Seq<char>
    decreases n,
{
    if n < 10 {
        seq![digit_chars()[n as int]]
    } else {
        decimal_text(n / 10).push(digit_chars()[(n % 10) as int])
    }
}

/// Appends the digit of value `d`.
fn push_digit(s: &mut String, d: u8)
    requires
        d < 16,
    ensures
        final(s)@ == old(s)@.push(digit_chars()[d as int]),
{
    let digits = "0123456789ABCDEF";
    proof {
        reveal_strlit("0123456789ABCDEF");
        assert(digits@ =~= digit_chars());
    }
    s.append(digits.substring_char(d as usize, d as usize + 1));
    proof {
        assert(digits@.subrange(d as int, d + 1) =~= seq![digit_chars()[d as int]]);
    }
}

/// Two upper-case hexadecimal digits.
pub fn hex_byte(b: u8) -> (r: String)
    ensures
        r@ == hex_text(b),
{
    let mut s = String::new();
    push_digit(&mut s, b / 16);
    push_digit(&mut s, b % 16);
    proof {
        assert(s@ =~= hex_text(b));
    }
    s
}

/// `n` in decimal.
pub fn decimal(n: u8) -> (r: String)
    ensures
        r@ == decimal_text(n as nat),
{
    let mut s = String::new();
    if n >= 100 {
        push_digit(&mut s, n / 100);
    }
    if n >= 10 {
        push_digit(&mut s, (n / 10) % 10);
    }
    push_digit(&mut s, n % 10);
    proof {
        let m = n as nat;
        if n >= 100 {
            assert(decimal_text(m / 100) == seq![digit_chars()[(n / 100) as int]]);
            assert(decimal_text(m / 10) == decimal_text(m / 100).push(
                digit_chars()[((n / 10) % 10) as int],
            ));
        } else if n >= 10 {
            assert(decimal_text(m / 10) == seq![digit_chars()[(n / 10) as int]]);
        }
        assert(s@ =~= decimal_text(m));
    }
    s
}


/// The column titles for a frame with `n` payload bytes.
pub open spec fn title_cells(n: nat) -> Seq<Seq<char>> {
    seq!["STX"@, "ID"@, "LEN"@, "CMD"@, "SEQ"@] + Seq::new(
        n,
        |i: int| "D"@ + decimal_text((i + 1) as nat),
    ) + seq!["CS"@]
}

/// The bytes of the frame, one cell each, in hexadecimal.
pub open spec fn value_cells(p: PACKET) -> Seq<Seq<char>> {
    seq![
        hex_text(p.header.stx),
        hex_text(p.header.id),
        hex_text(p.header.length),
        hex_text(p.header.command),
        hex_text(p.header.sequence),
    ] + p.payload().map_values(|b: u8| hex_text(b)) + seq![hex_text(p.checksum)]
}

/// The cell holds no escape character (U+001B), so that the table measures
/// it as plain text.
pub open spec fn plain_cell(c: Seq<char>) -> bool {
    forall|i: int| 0 <= i < c.len() ==> c[i] != '\u{1b}'
}

/// Every digit is plain text.
proof fn lemma_digits_plain()
    ensures
        forall|k: int| 0 <= k < 16 ==> #[trigger] digit_chars()[k] != '\u{1b}',
{
    assert forall|k: int| 0 <= k < 16 implies #[trigger] digit_chars()[k] != '\u{1b}' by {
        let d = digit_chars();
        assert(d[0] == '0' && d[1] == '1' && d[2] == '2' && d[3] == '3');
        assert(d[4] == '4' && d[5] == '5' && d[6] == '6' && d[7] == '7');
        assert(d[8] == '8' && d[9] == '9' && d[10] == 'A' && d[11] == 'B');
        assert(d[12] == 'C' && d[13] == 'D' && d[14] == 'E' && d[15] == 'F');
    }
}

/// A number in decimal is plain text.
proof fn lemma_decimal_plain(n: nat)
    ensures
        plain_cell(decimal_text(n)),
    decreases n,
{
    lemma_digits_plain();
    if n >= 10 {
        lemma_decimal_plain(n / 10);
    }
}

/// The cells of a packet's table are plain text.
proof fn lemma_cells_plain(p: PACKET, n: nat)
    requires
        p.header.length >= FRAME_OVERHEAD,
    ensures
        forall|j: int| 0 <= j < title_cells(n).len() ==> plain_cell(#[trigger] title_cells(n)[j]),
        forall|j: int| 0 <= j < value_cells(p).len() ==> plain_cell(#[trigger] value_cells(p)[j]),
{
    lemma_digits_plain();
    reveal_strlit("STX");
    reveal_strlit("ID");
    reveal_strlit("LEN");
    reveal_strlit("CMD");
    reveal_strlit("SEQ");
    reveal_strlit("CS");
    reveal_strlit("D");
    assert forall|j: int| 0 <= j < title_cells(n).len() implies plain_cell(
        #[trigger] title_cells(n)[j],
    ) by {
        if 5 <= j < 5 + n {
            lemma_decimal_plain((j - 5 + 1) as nat);
        }
    }
}

/// The text of a table with the given rows of cells, each cell centred.
pub uninterp spec fn table_text(rows: Seq<Seq<Seq<char>>>) -> Seq<char>;

/// Relies on prettytable (`Table::new`, `Table::add_row`, `Row::new`,
/// `Cell::new`, `Cell::style_spec` with "c" for centred, and `Table`'s
/// `Display`): draws the rows in the default format, a text that depends
/// on the cells alone. Cells measure their width by `display_width`, which
/// asserts on some text after an escape character: none may hold one.
#[verifier::external_body]
fn render_table(rows: &Vec<Vec<String>>) -> (r: String)
    requires
        forall|i: int, j: int|
            0 <= i < rows@.len() && 0 <= j < rows@[i]@.len() ==> plain_cell(#[trigger] rows@[i]@[j]@),
    ensures
        r@ == table_text(rows@.map_values(|row: Vec<String>| row@.map_values(|c: String| c@))),
{
    let mut table = prettytable::Table::new();
    for row in rows.iter() {
        let cells = row.iter().map(|c| prettytable::Cell::new(c).style_spec("c")).collect();
        table.add_row(prettytable::Row::new(cells));
    }
    table.to_string()
}

impl PACKET {
    /// The packet as a table: the field names above, the bytes below.
    pub fn to_string(&self) -> (r: String)
        requires
            self.header.length >= FRAME_OVERHEAD,
        ensures
            r@ == table_text(
                seq![
                    title_cells((self.header.length - FRAME_OVERHEAD) as nat),
                    value_cells(*self),
                ],
            ),
    {
        let n: u8 = self.header.length - FRAME_OVERHEAD;
        let ghost titles_spec = title_cells(n as nat);
        let ghost values_spec = value_cells(*self);
        let mut titles: Vec<String> = Vec::new();
        let mut values: Vec<String> = Vec::new();
        titles.push(String::from_str("STX"));
        titles.push(String::from_str("ID"));
        titles.push(String::from_str("LEN"));
        titles.push(String::from_str("CMD"));
        titles.push(String::from_str("SEQ"));
        values.push(hex_byte(self.header.stx));
        values.push(hex_byte(self.header.id));
        values.push(hex_byte(self.header.length));
        values.push(hex_byte(self.header.command));
        values.push(hex_byte(self.header.sequence));
        let mut i: u8 = 0;
        while i < n
            invariant
                n == self.header.length - FRAME_OVERHEAD,
                i <= n,
                titles_spec == title_cells(n as nat),
                values_spec == value_cells(*self),
                titles@.len() == 5 + i,
                values@.len() == 5 + i,
                forall|j: int| 0 <= j < 5 + i ==> #[trigger] titles@[j]@ == titles_spec[j],
                forall|j: int| 0 <= j < 5 + i ==> #[trigger] values@[j]@ == values_spec[j],
            decreases n - i,
        {
            let mut title = String::from_str("D");
            let number = decimal(i + 1);
            title.append(number.as_str());
            titles.push(title);
            values.push(hex_byte(self.data[i as usize]));
            i = i + 1;
        }
        titles.push(String::from_str("CS"));
        values.push(hex_byte(self.checksum));
        let rows: Vec<Vec<String>> = vec![titles, values];
        proof {
            let row_view = |row: Vec<String>| row@.map_values(|c: String| c@);
            assert(rows@.map_values(row_view)[0] =~= titles_spec);
            assert(rows@.map_values(row_view)[1] =~= values_spec);
            assert(rows@.map_values(row_view) =~= seq![titles_spec, values_spec]);
            lemma_cells_plain(*self, n as nat);
            assert forall|a: int, b: int|
                0 <= a < rows@.len() && 0 <= b < rows@[a]@.len() implies plain_cell(
                #[trigger] rows@[a]@[b]@,
            ) by {
                if a == 0 {
                    assert(rows@[a]@[b]@ == titles_spec[b]);
                } else {
                    assert(rows@[a]@[b]@ == values_spec[b]);
                }
            }
        }
        render_table(&rows)
    }
}

} // verus!
