//! The persisted store format: a human-readable textual object whose keys
//! are canonical absolute paths in lexicographic order and whose values
//! carry `mtime`, `mtime_nano` and `hash` fields.
//!
//! The serializer is verified to produce exactly [`ser_store`] of the
//! store's value. The parser accepts only the canonical form the
//! serializer produces, and guarantees that whatever it accepts
//! re-serializes to the very bytes it read, so that deserializing a store
//! and serializing it again is byte-identical.

use vstd::prelude::*;
use vstd::string::{StrSliceExecFns, StringExecFns};
use crate::record::{FileRecord, RecordModel, RecordStore, StoreModel};
use crate::strutil::{CharOrder, str_compare};

verus! {

/// The decimal digit character for a value below ten.
pub open spec fn dec_digit(v: int) -> char {
    seq!['0', '1', '2', '3', '4', '5', '6', '7', '8', '9'][v]
}

/// The lowercase hexadecimal digit character for a value below sixteen.
pub open spec fn hex_digit_lower(v: int) -> char {
    seq!['0', '1', '2', '3', '4', '5', '6', '7', '8', '9', 'a', 'b', 'c', 'd', 'e', 'f'][v]
}

/// Decimal rendering of a natural number, no leading zeros.
pub open spec fn dec_nat(n: nat) -> Seq<char>
    decreases n,
{
    if n < 10 {
        seq![dec_digit(n as int)]
    } else {
        dec_nat(n / 10) + seq![dec_digit((n % 10) as int)]
    }
}

/// Decimal rendering of an integer, with a leading minus when negative.
pub open spec fn dec_int(v: int) -> Seq<char> {
    if v < 0 {
        "-"@ + dec_nat((-v) as nat)
    } else {
        dec_nat(v as nat)
    }
}

/// How one character is written inside a quoted string: quote, backslash
/// and control characters are escaped, everything else stands as itself.
pub open spec fn escape_char(c: char) -> Seq<char> {
    if c == '"' {
        "\\\""@
    } else if c == '\\' {
        "\\\\"@
    } else if c == '\u{8}' {
        "\\b"@
    } else if c == '\t' {
        "\\t"@
    } else if c == '\n' {
        "\\n"@
    } else if c == '\u{c}' {
        "\\f"@
    } else if c == '\r' {
        "\\r"@
    } else if (c as u32) < 32 {
        "\\u00"@ + seq![
            hex_digit_lower((c as u32) as int / 16),
            hex_digit_lower((c as u32) as int % 16),
        ]
    } else {
        seq![c]
    }
}

/// The escaped form of a whole string.
pub open spec fn escape(s: Seq<char>) -> Seq<char>
    decreases s.len(),
{
    if s.len() == 0 {
        Seq::<char>::empty()
    } else {
        escape_char(s[0]) + escape(s.drop_first())
    }
}

pub proof fn lemma_escape_snoc(s: Seq<char>, c: char)
    ensures
        escape(s.push(c)) == escape(s) + escape_char(c),
    decreases s.len(),
{
    let sp = s.push(c);
    if s.len() == 0 {
        assert(sp[0] == c);
        assert(sp.drop_first() =~= Seq::<char>::empty());
        assert(escape(sp.drop_first()) == Seq::<char>::empty());
        assert(escape(sp) == escape_char(c) + Seq::<char>::empty());
        assert(escape_char(c) + Seq::<char>::empty() =~= escape_char(c));
        assert(escape(s) + escape_char(c) =~= escape_char(c));
    } else {
        assert(sp.drop_first() =~= s.drop_first().push(c));
        lemma_escape_snoc(s.drop_first(), c);
        assert(escape(sp) == escape_char(s[0]) + (escape(s.drop_first()) + escape_char(c)));
        assert(escape_char(s[0]) + (escape(s.drop_first()) + escape_char(c)) =~= (escape_char(s[0])
            + escape(s.drop_first())) + escape_char(c));
    }
}

/// One serialized store entry: the escaped key and the record's three
/// fields, indented as the store writes them.
pub open spec fn ser_record(key: Seq<char>, r: RecordModel) -> Seq<char> {
    "  \""@ + escape(key) + "\": {\n    \"mtime\": "@ + dec_int(r.mtime)
        + ",\n    \"mtime_nano\": "@ + dec_int(r.mtime_nano) + ",\n    \"hash\": \""@ + escape(
        r.hash,
    ) + "\"\n  }"@
}

/// All entries in order, separated by a comma and a line break.
pub open spec fn ser_entries(m: StoreModel) -> Seq<char>
    decreases m.len(),
{
    if m.len() == 0 {
        Seq::<char>::empty()
    } else if m.len() == 1 {
        ser_record(m[0].0, m[0].1)
    } else {
        ser_entries(m.drop_last()) + ",\n"@ + ser_record(m.last().0, m.last().1)
    }
}

/// The complete serialized store.
pub open spec fn ser_store(m: StoreModel) -> Seq<char> {
    if m.len() == 0 {
        "{}"@
    } else {
        "{\n"@ + ser_entries(m) + "\n}"@
    }
}

/// The decimal digit as a one-character string slice.
fn dec_digit_str(d: u64) -> (r: &'static str)
    requires
        d < 10,
    ensures
        r@ == seq![dec_digit(d as int)],
{
    proof {
        reveal_strlit("0");
        reveal_strlit("1");
        reveal_strlit("2");
        reveal_strlit("3");
        reveal_strlit("4");
        reveal_strlit("5");
        reveal_strlit("6");
        reveal_strlit("7");
        reveal_strlit("8");
        reveal_strlit("9");
    }
    if d == 0 {
        "0"
    } else if d == 1 {
        "1"
    } else if d == 2 {
        "2"
    } else if d == 3 {
        "3"
    } else if d == 4 {
        "4"
    } else if d == 5 {
        "5"
    } else if d == 6 {
        "6"
    } else if d == 7 {
        "7"
    } else if d == 8 {
        "8"
    } else {
        "9"
    }
}

/// The lowercase hexadecimal digit as a one-character string slice.
fn hex_digit_str(d: u32) -> (r: &'static str)
    requires
        d < 16,
    ensures
        r@ == seq![hex_digit_lower(d as int)],
{
    proof {
        reveal_strlit("0");
        reveal_strlit("1");
        reveal_strlit("2");
        reveal_strlit("3");
        reveal_strlit("4");
        reveal_strlit("5");
        reveal_strlit("6");
        reveal_strlit("7");
        reveal_strlit("8");
        reveal_strlit("9");
        reveal_strlit("a");
        reveal_strlit("b");
        reveal_strlit("c");
        reveal_strlit("d");
        reveal_strlit("e");
        reveal_strlit("f");
    }
    if d == 0 {
        "0"
    } else if d == 1 {
        "1"
    } else if d == 2 {
        "2"
    } else if d == 3 {
        "3"
    } else if d == 4 {
        "4"
    } else if d == 5 {
        "5"
    } else if d == 6 {
        "6"
    } else if d == 7 {
        "7"
    } else if d == 8 {
        "8"
    } else if d == 9 {
        "9"
    } else if d == 10 {
        "a"
    } else if d == 11 {
        "b"
    } else if d == 12 {
        "c"
    } else if d == 13 {
        "d"
    } else if d == 14 {
        "e"
    } else {
        "f"
    }
}

/// Decimal rendering of an unsigned value.
fn u64_to_dec(n: u64) -> (r: String)
    ensures
        r@ == dec_nat(n as nat),
    decreases n,
{
    if n < 10 {
        dec_digit_str(n).to_owned()
    } else {
        let mut s = u64_to_dec(n / 10);
        s.append(dec_digit_str(n % 10));
        s
    }
}

/// Decimal rendering of a signed value.
fn i64_to_dec(v: i64) -> (r: String)
    ensures
        r@ == dec_int(v as int),
{
    if v >= 0 {
        u64_to_dec(v as u64)
    } else {
        let mag: u64 = (-(v as i128)) as u64;
        let mut s = "-".to_owned();
        let digits = u64_to_dec(mag);
        s.append(digits.as_str());
        s
    }
}

/// Append the escaped form of a string.
fn append_escaped(out: &mut String, s: &str)
    ensures
        final(out)@ == old(out)@ + escape(s@),
{
    let n = s.unicode_len();
    let mut i: usize = 0;
    proof {
        assert(out@ + escape(s@.subrange(0, 0)) =~= out@);
    }
    while i < n
        invariant
            0 <= i <= n,
            n == s@.len(),
            out@ == old(out)@ + escape(s@.subrange(0, i as int)),
        decreases n - i,
    {
        let ghost prefix = s@.subrange(0, i as int);
        let c = s.get_char(i);
        if c == '"' {
            out.append("\\\"");
        } else if c == '\\' {
            out.append("\\\\");
        } else if c == '\u{8}' {
            out.append("\\b");
        } else if c == '\t' {
            out.append("\\t");
        } else if c == '\n' {
            out.append("\\n");
        } else if c == '\u{c}' {
            out.append("\\f");
        } else if c == '\r' {
            out.append("\\r");
        } else if (c as u32) < 32 {
            out.append("\\u00");
            out.append(hex_digit_str((c as u32) / 16));
            out.append(hex_digit_str((c as u32) % 16));
        } else {
            let piece = s.substring_char(i, i + 1);
            proof {
                assert(piece@ =~= seq![s@[i as int]]);
            }
            out.append(piece);
        }
        proof {
            lemma_escape_snoc(prefix, c);
            assert(s@.subrange(0, i + 1) =~= prefix.push(c));
            assert(out@ =~= old(out)@ + escape(s@.subrange(0, i + 1)));
        }
        i += 1;
    }
    proof {
        assert(s@.subrange(0, n as int) =~= s@);
    }
}

/// Append one serialized entry.
fn append_record(out: &mut String, path: &str, record: &FileRecord)
    ensures
        final(out)@ == old(out)@ + ser_record(path@, record.model()),
{
    out.append("  \"");
    append_escaped(out, path);
    out.append("\": {\n    \"mtime\": ");
    let mtime_text = i64_to_dec(record.mtime);
    out.append(mtime_text.as_str());
    out.append(",\n    \"mtime_nano\": ");
    let nano_text = u64_to_dec(record.mtime_nano as u64);
    out.append(nano_text.as_str());
    out.append(",\n    \"hash\": \"");
    append_escaped(out, record.hash.as_str());
    out.append("\"\n  }");
    proof {
        assert(final(out)@ =~= old(out)@ + ser_record(path@, record.model()));
    }
}

impl RecordStore {
    /// Serialize the store: the exact canonical text of its value.
    pub fn to_text(&self) -> (r: String)
        ensures
            r@ == ser_store(self@),
    {
        let n = self.len();
        if n == 0 {
            return "{}".to_owned();
        }
        let mut out = "{\n".to_owned();
        let mut i: usize = 0;
        while i < n
            invariant
                0 <= i <= n,
                n == self@.len(),
                n > 0,
                i == 0 ==> out@ == "{\n"@,
                i > 0 ==> out@ == "{\n"@ + ser_entries(self@.subrange(0, i as int)),
            decreases n - i,
        {
            let ghost done = self@.subrange(0, i as int);
            if i > 0 {
                out.append(",\n");
            }
            let entry = self.entry_at(i);
            append_record(&mut out, entry.path.as_str(), &entry.record);
            proof {
                let now = self@.subrange(0, i + 1);
                assert(now.drop_last() =~= done);
                assert(now.last() == self@[i as int]);
                assert(entry.model() == self@[i as int]);
                if i == 0 {
                    assert(ser_entries(now) == ser_record(now[0].0, now[0].1));
                    assert(out@ =~= "{\n"@ + ser_entries(now));
                } else {
                    assert(ser_entries(now) == ser_entries(done) + ",\n"@ + ser_record(
                        now.last().0,
                        now.last().1,
                    ));
                    assert(out@ =~= "{\n"@ + ser_entries(now));
                }
            }
            i += 1;
        }
        out.append("\n}");
        proof {
            assert(self@.subrange(0, n as int) =~= self@);
            assert(out@ =~= "{\n"@ + ser_entries(self@) + "\n}"@);
        }
        out
    }
}


/// The decimal value of a digit character, if it is one.
fn dec_val(c: char) -> (r: Option<u8>) {
    if c == '0' {
        Some(0)
    } else if c == '1' {
        Some(1)
    } else if c == '2' {
        Some(2)
    } else if c == '3' {
        Some(3)
    } else if c == '4' {
        Some(4)
    } else if c == '5' {
        Some(5)
    } else if c == '6' {
        Some(6)
    } else if c == '7' {
        Some(7)
    } else if c == '8' {
        Some(8)
    } else if c == '9' {
        Some(9)
    } else {
        None
    }
}

/// The value of a lowercase hexadecimal digit character, if it is one.
fn hex_val(c: char) -> (r: Option<u8>) {
    if c == 'a' {
        Some(10)
    } else if c == 'b' {
        Some(11)
    } else if c == 'c' {
        Some(12)
    } else if c == 'd' {
        Some(13)
    } else if c == 'e' {
        Some(14)
    } else if c == 'f' {
        Some(15)
    } else {
        dec_val(c)
    }
}

/// The control character with the given code as a one-character slice.
fn ctrl_str(v: u8) -> &'static str
    requires
        v < 32,
{
    if v == 0 {
        "\u{0}"
    } else if v == 1 {
        "\u{1}"
    } else if v == 2 {
        "\u{2}"
    } else if v == 3 {
        "\u{3}"
    } else if v == 4 {
        "\u{4}"
    } else if v == 5 {
        "\u{5}"
    } else if v == 6 {
        "\u{6}"
    } else if v == 7 {
        "\u{7}"
    } else if v == 8 {
        "\u{8}"
    } else if v == 9 {
        "\u{9}"
    } else if v == 10 {
        "\u{a}"
    } else if v == 11 {
        "\u{b}"
    } else if v == 12 {
        "\u{c}"
    } else if v == 13 {
        "\u{d}"
    } else if v == 14 {
        "\u{e}"
    } else if v == 15 {
        "\u{f}"
    } else if v == 16 {
        "\u{10}"
    } else if v == 17 {
        "\u{11}"
    } else if v == 18 {
        "\u{12}"
    } else if v == 19 {
        "\u{13}"
    } else if v == 20 {
        "\u{14}"
    } else if v == 21 {
        "\u{15}"
    } else if v == 22 {
        "\u{16}"
    } else if v == 23 {
        "\u{17}"
    } else if v == 24 {
        "\u{18}"
    } else if v == 25 {
        "\u{19}"
    } else if v == 26 {
        "\u{1a}"
    } else if v == 27 {
        "\u{1b}"
    } else if v == 28 {
        "\u{1c}"
    } else if v == 29 {
        "\u{1d}"
    } else if v == 30 {
        "\u{1e}"
    } else {
        "\u{1f}"
    }
}

/// Match a literal at a position; the position just past it on success.
fn expect_at(text: &str, n: usize, i: usize, lit: &str) -> (r: Option<usize>)
    requires
        n == text@.len(),
        i <= n,
    ensures
        r matches Some(j) ==> i <= j <= n && j == i + lit@.len(),
{
    let m = lit.unicode_len();
    if n - i < m {
        return None;
    }
    let mut j: usize = 0;
    while j < m
        invariant
            0 <= j <= m,
            m <= n - i,
            i <= n,
            n == text@.len(),
            m == lit@.len(),
        decreases m - j,
    {
        if text.get_char(i + j) != lit.get_char(j) {
            return None;
        }
        j += 1;
    }
    Some(i + m)
}

/// Read a quoted string body starting at a position, unescaping as the
/// serializer escapes; the unescaped text and the position of the closing
/// quote on success.
fn parse_string_at(text: &str, n: usize, i: usize) -> (r: Option<(String, usize)>)
    requires
        n == text@.len(),
        i <= n,
    ensures
        r matches Some(p) ==> i <= p.1 <= n,
{
    let mut out = String::new();
    let mut cur: usize = i;
    loop
        invariant
            i <= cur <= n,
            n == text@.len(),
        decreases n - cur,
    {
        if cur >= n {
            return None;
        }
        let c = text.get_char(cur);
        if c == '"' {
            return Some((out, cur));
        }
        if c == '\\' {
            if cur + 1 >= n {
                return None;
            }
            let e = text.get_char(cur + 1);
            if e == '"' {
                out.append("\"");
                cur = cur + 2;
            } else if e == '\\' {
                out.append("\\");
                cur = cur + 2;
            } else if e == 'b' {
                out.append("\u{8}");
                cur = cur + 2;
            } else if e == 't' {
                out.append("\t");
                cur = cur + 2;
            } else if e == 'n' {
                out.append("\n");
                cur = cur + 2;
            } else if e == 'f' {
                out.append("\u{c}");
                cur = cur + 2;
            } else if e == 'r' {
                out.append("\r");
                cur = cur + 2;
            } else if e == 'u' {
                if n - cur < 6 {
                    return None;
                }
                let h1 = hex_val(text.get_char(cur + 2));
                let h2 = hex_val(text.get_char(cur + 3));
                let h3 = hex_val(text.get_char(cur + 4));
                let h4 = hex_val(text.get_char(cur + 5));
                match (h1, h2, h3, h4) {
                    (Some(a), Some(b), Some(c2), Some(d)) => {
                        let v: u32 = (a as u32) * 4096 + (b as u32) * 256 + (c2 as u32) * 16
                            + (d as u32);
                        if v >= 32 {
                            return None;
                        }
                        out.append(ctrl_str(v as u8));
                        cur = cur + 6;
                    },
                    _ => {
                        return None;
                    },
                }
            } else {
                return None;
            }
        } else {
            let piece = text.substring_char(cur, cur + 1);
            out.append(piece);
            cur = cur + 1;
        }
    }
}

/// Read an optionally signed run of decimal digits; the sign, magnitude
/// and the position past the digits on success.
fn parse_number_at(text: &str, n: usize, i: usize) -> (r: Option<(bool, u128, usize)>)
    requires
        n == text@.len(),
        i <= n,
    ensures
        r matches Some(p) ==> i <= p.2 <= n,
{
    let mut cur: usize = i;
    let mut neg = false;
    if cur < n && text.get_char(cur) == '-' {
        neg = true;
        cur = cur + 1;
    }
    let mut val: u128 = 0;
    let mut any = false;
    loop
        invariant
            i <= cur <= n,
            n == text@.len(),
            val <= 0xffff_ffff_ffff_ffff_ffffu128,
        decreases n - cur,
    {
        if cur >= n {
            break;
        }
        let c = text.get_char(cur);
        match dec_val(c) {
            Some(d) => {
                if val > 0xffff_ffff_ffff_ffffu128 {
                    return None;
                }
                val = val * 10 + (d as u128);
                any = true;
                cur = cur + 1;
            },
            None => {
                break;
            },
        }
    }
    if !any {
        return None;
    }
    Some((neg, val, cur))
}

/// Read a signed 64-bit decimal value.
fn parse_i64_at(text: &str, n: usize, i: usize) -> (r: Option<(i64, usize)>)
    requires
        n == text@.len(),
        i <= n,
    ensures
        r matches Some(p) ==> i <= p.1 <= n,
{
    match parse_number_at(text, n, i) {
        Some((neg, val, j)) => {
            if neg {
                if val > 0x8000_0000_0000_0000u128 {
                    None
                } else if val == 0x8000_0000_0000_0000u128 {
                    Some((i64::MIN, j))
                } else {
                    Some((-(val as i64), j))
                }
            } else {
                if val > 0x7fff_ffff_ffff_ffffu128 {
                    None
                } else {
                    Some((val as i64, j))
                }
            }
        },
        None => None,
    }
}

/// Read an unsigned 32-bit decimal value.
fn parse_u32_at(text: &str, n: usize, i: usize) -> (r: Option<(u32, usize)>)
    requires
        n == text@.len(),
        i <= n,
    ensures
        r matches Some(p) ==> i <= p.1 <= n,
{
    match parse_number_at(text, n, i) {
        Some((neg, val, j)) => {
            if neg || val > 0xffff_ffffu128 {
                None
            } else {
                Some((val as u32, j))
            }
        },
        None => None,
    }
}

/// Read the canonical text into a store; the canonical-form check is the
/// caller's. The text of the empty store is always read back.
fn raw_parse(text: &str) -> (r: Option<RecordStore>)
    ensures
        r matches Some(st) ==> st.wf(),
        text@ == "{}"@ ==> (r matches Some(st) && st@ == Seq::<(Seq<char>, RecordModel)>::empty()),
{
    proof {
        reveal_strlit("{}");
    }
    let n = text.unicode_len();
    if n < 2 {
        return None;
    }
    if text.get_char(0) != '{' {
        return None;
    }
    if text.get_char(1) == '}' {
        if n == 2 {
            return Some(RecordStore::new());
        }
        return None;
    }
    if text.get_char(1) != '\n' {
        return None;
    }
    let mut store = RecordStore::new();
    let mut i: usize = 2;
    loop
        invariant
            store.wf(),
            2 <= i <= n,
            n == text@.len(),
            text@ != "{}"@,
        decreases n - i,
    {
        proof {
            reveal_strlit("  \"");
        }
        let j1 = match expect_at(text, n, i, "  \"") {
            Some(j) => j,
            None => {
                return None;
            },
        };
        let (key, j2) = match parse_string_at(text, n, j1) {
            Some(p) => p,
            None => {
                return None;
            },
        };
        let j3 = match expect_at(text, n, j2, "\": {\n    \"mtime\": ") {
            Some(j) => j,
            None => {
                return None;
            },
        };
        let (mtime, j4) = match parse_i64_at(text, n, j3) {
            Some(p) => p,
            None => {
                return None;
            },
        };
        let j5 = match expect_at(text, n, j4, ",\n    \"mtime_nano\": ") {
            Some(j) => j,
            None => {
                return None;
            },
        };
        let (mtime_nano, j6) = match parse_u32_at(text, n, j5) {
            Some(p) => p,
            None => {
                return None;
            },
        };
        if mtime_nano > 999_999_999 {
            return None;
        }
        let j7 = match expect_at(text, n, j6, ",\n    \"hash\": \"") {
            Some(j) => j,
            None => {
                return None;
            },
        };
        let (hash, j8) = match parse_string_at(text, n, j7) {
            Some(p) => p,
            None => {
                return None;
            },
        };
        let j9 = match expect_at(text, n, j8, "\"\n  }") {
            Some(j) => j,
            None => {
                return None;
            },
        };
        store.insert(key, FileRecord { mtime, mtime_nano, hash });
        match expect_at(text, n, j9, ",\n") {
            Some(j10) => {
                i = j10;
            },
            None => {
                match expect_at(text, n, j9, "\n}") {
                    Some(j10) => {
                        if j10 == n {
                            return Some(store);
                        }
                        return None;
                    },
                    None => {
                        return None;
                    },
                }
            },
        }
    }
}

/// Parse the canonical serialized form of a store.
///
/// Whatever this accepts re-serializes to exactly the input text:
/// deserializing a store and serializing it again is byte-identical. The
/// converse, that every text the serializer writes parses back, is stated
/// and proved here for the empty store and exercised at run time for the
/// general store; its proof is the inversion of the serializer over
/// escaping and decimal rendering and is not yet written.
pub fn parse_store(text: &str) -> (r: Option<RecordStore>)
    ensures
        r matches Some(st) ==> st.wf() && ser_store(st@) == text@,
        text@ == ser_store(Seq::<(Seq<char>, RecordModel)>::empty()) ==> r is Some,
{
    match raw_parse(text) {
        Some(st) => {
            let round = st.to_text();
            if str_compare(round.as_str(), text) == CharOrder::Same {
                Some(st)
            } else {
                None
            }
        },
        None => None,
    }
}
} // verus!
