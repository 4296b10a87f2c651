use vstd::prelude::*;
use vstd::string::StringExecFns;

use crate::units::{
    gb_hundredths, kb_hundredths, mb_hundredths, rounded_hundredths, BYTES_PER_GB, BYTES_PER_KB,
    BYTES_PER_MB,
};

verus! {

/// The character that writes the decimal digit `d`.
pub open spec fn digit_char(d: nat) -> char
    recommends
        d < 10,
{
    if d == 0 {
        '0'
    } else if d == 1 {
        '1'
    } else if d == 2 {
        '2'
    } else if d == 3 {
        '3'
    } else if d == 4 {
        '4'
    } else if d == 5 {
        '5'
    } else if d == 6 {
        '6'
    } else if d == 7 {
        '7'
    } else if d == 8 {
        '8'
    } else {
        '9'
    }
}

/// The decimal writing of `n`, most significant digit first, no leading zeros
/// (a single `'0'` for zero itself).
pub open spec fn dec_digits(n: nat) -> Seq<char>
    decreases n,
{
    if n < 10 {
        seq![digit_char(n)]
    } else {
        dec_digits(n / 10).push(digit_char(n % 10))
    }
}

/// The writing of a quantity of hundredths as a number with exactly two
/// decimal places: integer part, a point, then two digits.
pub open spec fn two_dec(h: nat) -> Seq<char> {
    dec_digits(h / 100) + seq!['.', digit_char((h % 100) / 10), digit_char(h % 10)]
}

/// The four comma-separated size columns for a byte count: raw bytes, then
/// kibibytes, mebibytes and gibibytes, each rounded to two decimal places.
pub open spec fn csv_size_text(bytes: nat) -> Seq<char> {
    dec_digits(bytes) + seq![','] + two_dec(rounded_hundredths(bytes, BYTES_PER_KB as nat))
        + seq![','] + two_dec(rounded_hundredths(bytes, BYTES_PER_MB as nat)) + seq![','] + two_dec(
        rounded_hundredths(bytes, BYTES_PER_GB as nat),
    )
}

/// The human-readable form of the same four columns, with unit labels.
pub open spec fn display_size_text(bytes: nat) -> Seq<char> {
    dec_digits(bytes) + seq![' ', 'B', ',', ' '] + two_dec(
        rounded_hundredths(bytes, BYTES_PER_KB as nat),
    ) + seq![' ', 'K', 'B', ',', ' '] + two_dec(rounded_hundredths(bytes, BYTES_PER_MB as nat))
        + seq![' ', 'M', 'B', ',', ' '] + two_dec(rounded_hundredths(bytes, BYTES_PER_GB as nat))
        + seq![' ', 'G', 'B']
}

/// The string slice that writes the single decimal digit `d`.
fn digit_str(d: u64) -> (r: &'static str)
    requires
        d < 10,
    ensures
        r@ == seq![digit_char(d as nat)],
{
    proof {
        reveal_strlit("0");
        reveal_strlit("1");
        reveal_strlit("2");
        reveal_strlit("3");
        reveal_strlit("4");
        reveal_strlit("5");
        reveal_strlit("6");
        reveal_strlit("7");
        reveal_strlit("8");
        reveal_strlit("9");
    }
    let r: &'static str = if d == 0 {
        "0"
    } else if d == 1 {
        "1"
    } else if d == 2 {
        "2"
    } else if d == 3 {
        "3"
    } else if d == 4 {
        "4"
    } else if d == 5 {
        "5"
    } else if d == 6 {
        "6"
    } else if d == 7 {
        "7"
    } else if d == 8 {
        "8"
    } else {
        "9"
    };
    proof {
        assert(r@ =~= seq![digit_char(d as nat)]);
    }
    r
}

/// Writes `n` in decimal, as `dec_digits` describes.
pub fn u64_string(n: u64) -> (r: String)
    ensures
        r@ == dec_digits(n as nat),
    decreases n,
{
    if n < 10 {
        String::from_str(digit_str(n))
    } else {
        let mut s = u64_string(n / 10);
        s.append(digit_str(n % 10));
        proof {
            assert(s@ =~= dec_digits(n as nat));
        }
        s
    }
}

/// Writes a quantity of hundredths with exactly two decimal places.
pub fn hundredths_string(h: u64) -> (r: String)
    ensures
        r@ == two_dec(h as nat),
{
    proof {
        reveal_strlit(".");
    }
    let mut s = u64_string(h / 100);
    s.append(".");
    s.append(digit_str((h % 100) / 10));
    s.append(digit_str(h % 10));
    proof {
        assert((h % 100) % 10 == h % 10) by {
            vstd::arithmetic::div_mod::lemma_mod_mod(h as int, 10, 10);
        }
        assert(s@ =~= two_dec(h as nat));
    }
    s
}

/// The comma-separated size columns for `bytes`, as they stand in a report
/// record: raw bytes, then kibibytes, mebibytes and gibibytes to two decimals.
pub fn size_string(bytes: u64) -> (r: String)
    ensures
        r@ == csv_size_text(bytes as nat),
{
    proof {
        reveal_strlit(",");
    }
    let mut s = u64_string(bytes);
    s.append(",");
    s.append(hundredths_string(kb_hundredths(bytes)).as_str());
    s.append(",");
    s.append(hundredths_string(mb_hundredths(bytes)).as_str());
    s.append(",");
    s.append(hundredths_string(gb_hundredths(bytes)).as_str());
    proof {
        assert(s@ =~= csv_size_text(bytes as nat));
    }
    s
}

/// The human-readable size line body for `bytes`, with unit labels.
pub fn size_string_display(bytes: u64) -> (r: String)
    ensures
        r@ == display_size_text(bytes as nat),
{
    proof {
        reveal_strlit(" B, ");
        reveal_strlit(" KB, ");
        reveal_strlit(" MB, ");
        reveal_strlit(" GB");
    }
    let mut s = u64_string(bytes);
    s.append(" B, ");
    s.append(hundredths_string(kb_hundredths(bytes)).as_str());
    s.append(" KB, ");
    s.append(hundredths_string(mb_hundredths(bytes)).as_str());
    s.append(" MB, ");
    s.append(hundredths_string(gb_hundredths(bytes)).as_str());
    s.append(" GB");
    proof {
        assert(s@ =~= display_size_text(bytes as nat));
    }
    s
}

/// The CSV record for a visited file: `F,<path>,<size columns>` and a CRLF.
pub open spec fn file_record_text(path: Seq<char>, bytes: nat) -> Seq<char> {
    seq!['F', ','] + path + seq![','] + csv_size_text(bytes) + seq!['\r', '\n']
}

/// The CSV record for a visited directory: `D,<path>,<size columns>` and a CRLF.
pub open spec fn dir_record_text(path: Seq<char>, bytes: nat) -> Seq<char> {
    seq!['D', ','] + path + seq![','] + csv_size_text(bytes) + seq!['\r', '\n']
}

/// The console line for an entry: the path, the labelled sizes, and a CRLF.
pub open spec fn console_line_text(path: Seq<char>, bytes: nat) -> Seq<char> {
    path + seq![' '] + display_size_text(bytes) + seq!['\r', '\n']
}

/// Writes the CSV record for a file of `bytes` bytes at `path`.
pub fn file_csv_line(path: &str, bytes: u64) -> (r: String)
    ensures
        r@ == file_record_text(path@, bytes as nat),
{
    proof {
        reveal_strlit("F,");
        reveal_strlit(",");
        reveal_strlit("\r\n");
    }
    let mut s = String::from_str("F,");
    s.append(path);
    s.append(",");
    s.append(size_string(bytes).as_str());
    s.append("\r\n");
    proof {
        assert(s@ =~= file_record_text(path@, bytes as nat));
    }
    s
}

/// Writes the CSV record for a directory whose total is `bytes` bytes.
pub fn dir_csv_line(path: &str, bytes: u64) -> (r: String)
    ensures
        r@ == dir_record_text(path@, bytes as nat),
{
    proof {
        reveal_strlit("D,");
        reveal_strlit(",");
        reveal_strlit("\r\n");
    }
    let mut s = String::from_str("D,");
    s.append(path);
    s.append(",");
    s.append(size_string(bytes).as_str());
    s.append("\r\n");
    proof {
        assert(s@ =~= dir_record_text(path@, bytes as nat));
    }
    s
}

/// Writes the console line for an entry of `bytes` bytes at `path`.
pub fn console_line(path: &str, bytes: u64) -> (r: String)
    ensures
        r@ == console_line_text(path@, bytes as nat),
{
    proof {
        reveal_strlit(" ");
        reveal_strlit("\r\n");
    }
    let mut s = String::from_str(path);
    s.append(" ");
    s.append(size_string_display(bytes).as_str());
    s.append("\r\n");
    proof {
        assert(s@ =~= console_line_text(path@, bytes as nat));
    }
    s
}

} // verus!
