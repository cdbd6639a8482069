//! The classic dump of offsets, hex digits and ascii.
use crate::text;
use crate::text::{push_decimal, push_hexadecimal_padded};
use vstd::prelude::*;

verus! {

/// A printable ascii byte, the space among them.
pub open spec fn is_printable(b: u8) -> bool {
    0x20 <= b <= 0x7e
}

/// How many bytes are shown; no maximum is written as zero.
pub open spec fn limit_of(len: int, max: int) -> int {
    if max == 0 || len <= max {
        len
    } else {
        max
    }
}

/// A byte as two hex digits.
pub open spec fn two_hex(b: u8) -> Seq<char> {
    text::pad_left(text::hexadecimal(b as nat), 2, '0')
}

/// The hex column of a row up to place `n`: the digits of a byte or as much
/// space, with a gap in the middle.
pub open spec fn hex_column(chunk: Seq<u8>, n: nat) -> Seq<char>
    decreases n,
{
    if n == 0 {
        Seq::empty()
    } else {
        let i = n - 1;
        hex_column(chunk, i as nat) + (if i < chunk.len() {
            two_hex(chunk[i]) + " "@
        } else {
            "   "@
        }) + (if i == 7 {
            " "@
        } else {
            Seq::empty()
        })
    }
}

/// A byte as the ascii column shows it.
pub open spec fn ascii_of(b: u8) -> char {
    if is_printable(b) {
        b as char
    } else {
        '.'
    }
}

/// The ascii column of a row.
pub open spec fn ascii_column(chunk: Seq<u8>) -> Seq<char> {
    Seq::new(chunk.len(), |i: int| ascii_of(chunk[i]))
}

/// One row of the dump, for the bytes from an offset on.
pub open spec fn row_of(indent: Seq<char>, offset: nat, chunk: Seq<u8>) -> Seq<char> {
    indent + text::pad_left(text::hexadecimal(offset), 8, '0') + "  "@ + hex_column(chunk, 16) + " |"@
        + ascii_column(chunk) + "|\n"@
}

/// How many rows some bytes fill, sixteen in each.
pub open spec fn row_count(len: nat) -> nat {
    (len + 15) / 16
}

/// The bytes of a row.
pub open spec fn chunk_of(data: Seq<u8>, row: nat) -> Seq<u8> {
    let from = row as int * 16;
    data.subrange(
        from,
        if from + 16 <= data.len() {
            from + 16
        } else {
            data.len() as int
        },
    )
}

/// The first rows of the dump.
pub open spec fn rows_of(data: Seq<u8>, indent: Seq<char>, n: nat) -> Seq<char>
    decreases n,
{
    if n == 0 {
        Seq::empty()
    } else {
        let row = (n - 1) as nat;
        rows_of(data, indent, row) + row_of(indent, row * 16, chunk_of(data, row))
    }
}

/// The dump: its rows, and how much is not shown.
pub open spec fn render_of(data: Seq<u8>, max: int, indent: Seq<char>) -> Seq<char> {
    let limit = limit_of(data.len() as int, max);
    let shown = data.take(limit);
    rows_of(shown, indent, row_count(shown.len())) + (if limit < data.len() {
        indent + "... "@ + text::decimal((data.len() - limit) as nat) + " more bytes\n"@
    } else {
        Seq::empty()
    })
}

fn limit(len: usize, max: usize) -> (n: usize)
    ensures
        n == limit_of(len as int, max as int),
{
    if max == 0 || len <= max {
        len
    } else {
        max
    }
}

fn push_hex_column(out: &mut String, data: &[u8], from: usize, to: usize)
    requires
        from <= to <= data@.len(),
    ensures
        final(out)@ == old(out)@ + hex_column(data@.subrange(from as int, to as int), 16),
{
    let ghost chunk = data@.subrange(from as int, to as int);
    let mut i: usize = 0;
    assert(out@ =~= old(out)@ + hex_column(chunk, 0));
    while i < 16
        invariant
            i <= 16,
            from <= to <= data@.len(),
            chunk == data@.subrange(from as int, to as int),
            out@ == old(out)@ + hex_column(chunk, i as nat),
        decreases 16 - i,
    {
        let ghost before = out@;
        if i < to - from {
            push_hexadecimal_padded(out, data[from + i] as u64, 2);
            out.append(" ");
        } else {
            out.append("   ");
        }
        if i == 7 {
            out.append(" ");
        }
        i += 1;
        assert(out@ =~= old(out)@ + hex_column(chunk, i as nat));
    }
}

fn push_ascii_column(out: &mut String, data: &[u8], from: usize, to: usize)
    requires
        from <= to <= data@.len(),
    ensures
        final(out)@ == old(out)@ + ascii_column(data@.subrange(from as int, to as int)),
{
    let ghost chunk = data@.subrange(from as int, to as int);
    let ghost column = ascii_column(chunk);
    let mut i: usize = from;
    assert(out@ =~= old(out)@ + column.take(0));
    while i < to
        invariant
            from <= i <= to <= data@.len(),
            chunk == data@.subrange(from as int, to as int),
            column == ascii_column(chunk),
            out@ == old(out)@ + column.take(i - from),
        decreases to - i,
    {
        let b: u8 = data[i];
        out.push(
            if 0x20 <= b && b <= 0x7e {
                b as char
            } else {
                '.'
            },
        );
        i += 1;
        assert(column.take(i - from) =~= column.take(i - 1 - from).push(column[i - 1 - from]));
    }
    assert(column.take(to - from) =~= column);
}

fn push_row(out: &mut String, data: &[u8], from: usize, to: usize, indent: &str)
    requires
        from <= to <= data@.len(),
    ensures
        final(out)@ == old(out)@ + row_of(
            indent@,
            from as nat,
            data@.subrange(from as int, to as int),
        ),
{
    out.append(indent);
    push_hexadecimal_padded(out, from as u64, 8);
    out.append("  ");
    push_hex_column(out, data, from, to);
    out.append(" |");
    push_ascii_column(out, data, from, to);
    out.append("|\n");
    assert(out@ =~= old(out)@ + row_of(
        indent@,
        from as nat,
        data@.subrange(from as int, to as int),
    ));
}

/// Renders `data`, stopping after `max` bytes (0 = unlimited).
pub fn render(data: &[u8], max: usize, indent: &str) -> (out: String)
    ensures
        out@ == render_of(data@, max as int, indent@),
{
    let limit: usize = limit(data.len(), max);
    let ghost shown = data@.take(limit as int);
    let mut out = String::new();
    let mut at: usize = 0;
    let ghost mut rows: nat = 0;
    assert(out@ =~= rows_of(shown, indent@, 0));
    while at < limit
        invariant
            at <= limit <= data@.len(),
            shown == data@.take(limit as int),
            out@ == rows_of(shown, indent@, rows),
            at == rows * 16 || (at == limit && rows == row_count(limit as nat)),
        decreases limit - at,
    {
        let to: usize = if limit - at > 16 {
            at + 16
        } else {
            limit
        };
        push_row(&mut out, data, at, to, indent);
        proof {
            assert(data@.subrange(at as int, to as int) =~= chunk_of(shown, rows));
            rows = rows + 1;
        }
        at = to;
    }
    assert(rows == row_count(limit as nat));
    if limit < data.len() {
        out.append(indent);
        out.append("... ");
        push_decimal(&mut out, (data.len() - limit) as u64);
        out.append(" more bytes\n");
    }
    assert(out@ =~= render_of(data@, max as int, indent@));
    out
}

/// A byte as a single line shows it: printable or escaped.
pub open spec fn escape_of(b: u8) -> Seq<char> {
    if b == 13 {
        "\\r"@
    } else if b == 10 {
        "\\n"@
    } else if b == 9 {
        "\\t"@
    } else if is_printable(b) {
        seq![b as char]
    } else {
        "\\x"@ + two_hex(b)
    }
}

/// Bytes on a single line.
pub open spec fn escapes_of(data: Seq<u8>) -> Seq<char>
    decreases data.len(),
{
    if data.len() == 0 {
        Seq::empty()
    } else {
        escapes_of(data.drop_last()) + escape_of(data.last())
    }
}

/// Bytes on a single line, and how many are not shown.
pub open spec fn ascii_line_of(data: Seq<u8>, max: int) -> Seq<char> {
    let limit = limit_of(data.len() as int, max);
    escapes_of(data.take(limit)) + (if limit < data.len() {
        " ...(+"@ + text::decimal((data.len() - limit) as nat) + ")"@
    } else {
        Seq::empty()
    })
}

fn push_escape(out: &mut String, b: u8)
    ensures
        final(out)@ == old(out)@ + escape_of(b),
{
    if b == 13 {
        out.append("\\r");
    } else if b == 10 {
        out.append("\\n");
    } else if b == 9 {
        out.append("\\t");
    } else if 0x20 <= b && b <= 0x7e {
        out.push(b as char);
    } else {
        out.append("\\x");
        push_hexadecimal_padded(out, b as u64, 2);
    }
    assert(out@ =~= old(out)@ + escape_of(b));
}

/// A single printable line with control bytes escaped, stopping after `max` bytes
/// (0 = unlimited).
pub fn ascii_line(data: &[u8], max: usize) -> (out: String)
    ensures
        out@ == ascii_line_of(data@, max as int),
{
    let limit: usize = limit(data.len(), max);
    let mut out = String::new();
    let mut i: usize = 0;
    assert(out@ =~= escapes_of(data@.take(0)));
    while i < limit
        invariant
            i <= limit <= data@.len(),
            out@ == escapes_of(data@.take(i as int)),
        decreases limit - i,
    {
        push_escape(&mut out, data[i]);
        i += 1;
        assert(data@.take(i as int).drop_last() =~= data@.take(i - 1));
    }
    if limit < data.len() {
        out.append(" ...(+");
        push_decimal(&mut out, (data.len() - limit) as u64);
        out.append(")");
    }
    assert(out@ =~= ascii_line_of(data@, max as int));
    out
}

// ------------------------------------------------------------- laws

/// A byte is shown by its two hex digits, the high one first.
pub proof fn a_byte_has_two_digits(b: u8)
    ensures
        two_hex(b) == seq!["0123456789abcdef"@[b as int / 16], "0123456789abcdef"@[b as int % 16]],
{
    let h = (b / 16) as nat;
    let l = (b % 16) as nat;
    text::numerals_are_positional(h, l);
    text::numerals_are_positional(0, h);
    assert(b as nat == 16 * h + l);
    reveal_strlit("0123456789abcdef");
    let two = seq!["0123456789abcdef"@[h as int], "0123456789abcdef"@[l as int]];
    if h == 0 {
        assert(text::hexadecimal(b as nat) == seq!["0123456789abcdef"@[l as int]]);
        assert(two_hex(b) =~= two);
    } else {
        assert(text::hexadecimal(b as nat) =~= two);
        assert(two_hex(b) =~= two);
    }
}

/// Where the digits of a byte stand in the hex column: three places for each, and
/// one more behind the eighth.
pub open spec fn column(i: int) -> int {
    3 * i + (if i >= 8 {
        1int
    } else {
        0
    })
}

#[verifier::rlimit(50)]
proof fn columns_are_filled(chunk: Seq<u8>, n: nat)
    requires
        n <= 16,
    ensures
        hex_column(chunk, n).len() == column(n as int),
        forall|i: int|
            0 <= i < n && i < chunk.len() ==> hex_column(chunk, n).subrange(
                column(i),
                column(i) + 2,
            ) == #[trigger] two_hex(chunk[i]),
        forall|k: int|
            chunk.len() <= 16 && column(chunk.len() as int) <= k < hex_column(chunk, n).len()
                ==> #[trigger] hex_column(chunk, n)[k] == ' ',
    decreases n,
{
    reveal_strlit(" ");
    reveal_strlit("   ");
    if n > 0 {
        let m = (n - 1) as nat;
        columns_are_filled(chunk, m);
        let before = hex_column(chunk, m);
        let all = hex_column(chunk, n);
        if m < chunk.len() {
            a_byte_has_two_digits(chunk[m as int]);
        }
        assert forall|i: int| 0 <= i < n && i < chunk.len() implies all.subrange(
            column(i),
            column(i) + 2,
        ) == #[trigger] two_hex(chunk[i]) by {
            if i < m {
                assert(all.subrange(column(i), column(i) + 2) =~= before.subrange(
                    column(i),
                    column(i) + 2,
                ));
            } else {
                assert(all.subrange(column(i), column(i) + 2) =~= two_hex(chunk[i]));
            }
        }
    }
}

proof fn eight_digits(n: nat)
    requires
        n < 0x1_0000_0000,
    ensures
        text::pad_left(text::hexadecimal(n), 8, '0').len() == 8,
{
    reveal_with_fuel(text::hexadecimal, 9);
}

/// A row shows every byte of its chunk twice: by its hex digits, at the place that
/// goes with its position, and as a character between bars, a dot where it is not
/// printable. In front stand the indent and the offset in eight hex digits.
#[verifier::rlimit(50)]
pub proof fn a_row_shows_its_bytes(indent: Seq<char>, offset: nat, chunk: Seq<u8>, i: int)
    requires
        offset < 0x1_0000_0000,
        0 <= i < chunk.len() <= 16,
    ensures
        ({
            let row = row_of(indent, offset, chunk);
            let at = indent.len() as int;
            &&& row.len() == at + 61 + chunk.len() + 2
            &&& row.take(at) == indent
            &&& row.subrange(at, at + 8) == text::pad_left(text::hexadecimal(offset), 8, '0')
            &&& row.subrange(at + 10 + column(i), at + 12 + column(i)) == two_hex(chunk[i])
            &&& row[at + 60] == '|'
            &&& row[at + 61 + i] == if 0x20 <= chunk[i] <= 0x7e {
                chunk[i] as char
            } else {
                '.'
            }
            &&& row[at + 61 + chunk.len()] == '|'
            &&& row.last() == '\n'
        }),
{
    reveal_strlit("  ");
    reveal_strlit(" |");
    reveal_strlit("|\n");
    let row = row_of(indent, offset, chunk);
    let at = indent.len() as int;
    eight_digits(offset);
    columns_are_filled(chunk, 16);
    let hexes = hex_column(chunk, 16);
    assert(hexes.len() == 49);
    assert(row.take(at) =~= indent);
    assert(row.subrange(at, at + 8) =~= text::pad_left(text::hexadecimal(offset), 8, '0'));
    assert(row.subrange(at + 10, at + 59) =~= hexes);
    assert(row.subrange(at + 10 + column(i), at + 12 + column(i)) =~= hexes.subrange(
        column(i),
        column(i) + 2,
    ));
}

/// How many bytes of so many are shown; a maximum of zero is none.
pub open spec fn shown_of(len: int, max: int) -> int {
    if 0 < max < len {
        max
    } else {
        len
    }
}

/// A dump is the rows of what is shown, sixteen bytes in each, one behind the other,
/// and says how many bytes it leaves out.
pub proof fn a_dump_is_its_rows(data: Seq<u8>, max: int, indent: Seq<char>, row: nat)
    requires
        0 <= max,
    ensures
        ({
            let n = shown_of(data.len() as int, max);
            render_of(data, max, indent) == rows_of(
                data.take(n),
                indent,
                ((n + 15) / 16) as nat,
            ) + (if n < data.len() {
                indent + "... "@ + text::decimal((data.len() - n) as nat) + " more bytes\n"@
            } else {
                Seq::empty()
            })
        }),
        rows_of(data, indent, 0).len() == 0,
        16 * row < data.len() ==> rows_of(data, indent, row + 1) == rows_of(data, indent, row)
            + row_of(
            indent,
            16 * row,
            data.subrange(
                16 * row as int,
                if 16 * row + 16 < data.len() {
                    16 * row as int + 16
                } else {
                    data.len() as int
                },
            ),
        ),
{
}

proof fn lines_add_up(a: Seq<u8>, b: Seq<u8>)
    ensures
        escapes_of(a + b) == escapes_of(a) + escapes_of(b),
    decreases b.len(),
{
    if b.len() == 0 {
        assert(a + b =~= a);
        assert(escapes_of(a) + escapes_of(b) =~= escapes_of(a));
    } else {
        assert((a + b).drop_last() =~= a + b.drop_last());
        lines_add_up(a, b.drop_last());
        assert(escapes_of(a) + (escapes_of(b.drop_last()) + escape_of(b.last())) =~= escapes_of(a)
            + escapes_of(b.drop_last()) + escape_of(b.last()));
    }
}

/// A line shows every byte in its turn: printable ones as they are, line ends and
/// tabs by their escapes and all others by two hex digits; and it says how many
/// bytes it leaves out.
pub proof fn a_line_shows_its_bytes(a: Seq<u8>, b: u8, c: Seq<u8>, max: int)
    requires
        0 <= max,
    ensures
        escapes_of(a + seq![b] + c) == escapes_of(a) + escapes_of(seq![b]) + escapes_of(c),
        escapes_of(Seq::<u8>::empty()).len() == 0,
        b == 13 ==> escapes_of(seq![b]) == "\\r"@,
        b == 10 ==> escapes_of(seq![b]) == "\\n"@,
        b == 9 ==> escapes_of(seq![b]) == "\\t"@,
        0x20 <= b <= 0x7e ==> escapes_of(seq![b]) == seq![b as char],
        b < 0x20 && b != 13 && b != 10 && b != 9 || b > 0x7e ==> escapes_of(seq![b]) == "\\x"@
            + two_hex(b),
        ({
            let n = shown_of(a.len() as int, max);
            ascii_line_of(a, max) == escapes_of(a.take(n)) + (if n < a.len() {
                " ...(+"@ + text::decimal((a.len() - n) as nat) + ")"@
            } else {
                Seq::empty()
            })
        }),
{
    lines_add_up(a + seq![b], c);
    lines_add_up(a, seq![b]);
    let one = seq![b];
    assert(one.drop_last() =~= Seq::<u8>::empty());
    assert(escapes_of(one) == escapes_of(Seq::<u8>::empty()) + escape_of(b));
    assert(escapes_of(one) =~= escape_of(b));
}

/// `render` and `ascii_line` show bytes in the two ways.
pub proof fn bytes_are_shown(data: &[u8], max: usize, indent: &str, dump: String, line: String)
    requires
        call_ensures(render, (data, max, indent), dump),
        call_ensures(ascii_line, (data, max), line),
    ensures
        dump@ == render_of(data@, max as int, indent@),
        line@ == ascii_line_of(data@, max as int),
{
}

} // verus!
