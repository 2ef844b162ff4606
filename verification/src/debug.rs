use vstd::prelude::*;
use crate::disk::bit_stream::Nibble;
use crate::text::string_push;

verus! {

/// The hexadecimal digit (upper case) of `v` (0..16).
pub open spec fn hex_digit(v: int) -> char {
    if v < 10 {
        ('0' as int + v) as char
    } else {
        ('A' as int + v - 10) as char
    }
}

/// `v` in two hexadecimal digits.
pub open spec fn hex2(v: u8) -> Seq<char> {
    seq![hex_digit(v as int / 16), hex_digit(v as int % 16)]
}

/// `v` in four hexadecimal digits.
pub open spec fn hex4(v: int) -> Seq<char> {
    seq![hex_digit(v / 4096 % 16), hex_digit(v / 256 % 16), hex_digit(v / 16 % 16), hex_digit(v % 16)]
}

/// The decimal digits of `v`.
pub open spec fn decimal(v: nat) -> Seq<char>
    decreases v,
{
    if v < 10 {
        seq![('0' as int + v) as char]
    } else {
        decimal(v / 10).push(('0' as int + v % 10) as char)
    }
}

/// `v` in decimal, on at least two digits.
pub open spec fn decimal2(v: nat) -> Seq<char> {
    if v < 10 {
        seq!['0'].add(decimal(v))
    } else {
        decimal(v)
    }
}

/// What the dump shows for item `i`, at `address + i`, of items whose texts
/// are `texts`: a new line and the address every 16 items, then the item's
/// text and a space if there is an item there.
pub open spec fn dump_piece(texts: Seq<Seq<char>>, address: int, i: int) -> Seq<char> {
    let offset = address + i;
    let newline = if i > 0 && i % 16 == 0 { seq!['\n'] } else { Seq::<char>::empty() };
    let label = if i % 16 == 0 { hex4(offset) + " | "@ } else { Seq::<char>::empty() };
    let item = if offset < texts.len() { texts[offset] + seq![' '] } else { Seq::<char>::empty() };
    newline + label + item
}

/// The pieces of the first `n` items of the dump.
pub open spec fn dump_pieces(texts: Seq<Seq<char>>, address: int, n: int) -> Seq<char>
    decreases n,
{
    if n <= 0 {
        Seq::<char>::empty()
    } else {
        dump_pieces(texts, address, n - 1) + dump_piece(texts, address, n - 1)
    }
}

/// The dump of the items from `address` to `address + length` included,
/// 16 per line with the address first, ending with a line `====`.
pub open spec fn dump(texts: Seq<Seq<char>>, address: int, length: int) -> Seq<char> {
    dump_pieces(texts, address, length + 1) + "\n====\n"@
}

fn hex_char(v: u8) -> (r: char)
    requires
        v < 16,
    ensures
        r == hex_digit(v as int),
{
    if v < 10 {
        (48u8 + v) as char
    } else {
        (65u8 + v - 10) as char
    }
}

/// `v` in two hexadecimal digits.
pub fn hex_byte(v: u8) -> (r: String)
    ensures
        r@ == hex2(v),
{
    let mut s = String::new();
    string_push(&mut s, hex_char(v / 16));
    string_push(&mut s, hex_char(v % 16));
    assert(s@ =~= hex2(v));
    s
}

fn push_hex4(s: &mut String, v: u16)
    ensures
        final(s)@ == old(s)@ + hex4(v as int),
{
    string_push(s, hex_char(((v / 4096) % 16) as u8));
    string_push(s, hex_char(((v / 256) % 16) as u8));
    string_push(s, hex_char(((v / 16) % 16) as u8));
    string_push(s, hex_char((v % 16) as u8));
    assert(s@ =~= old(s)@ + hex4(v as int));
}

/// `v` in decimal.
fn decimal_string(v: u16) -> (r: String)
    ensures
        r@ == decimal(v as nat),
    decreases v,
{
    if v < 10 {
        let mut s = String::new();
        string_push(&mut s, (48u8 + v as u8) as char);
        assert(s@ =~= decimal(v as nat));
        s
    } else {
        let mut s = decimal_string(v / 10);
        string_push(&mut s, (48u8 + (v % 10) as u8) as char);
        s
    }
}

/// What a nibble shows: its value in hexadecimal, then `^` and the number of
/// sync bits after it (at least two digits), or three spaces if there is none.
pub open spec fn nibble_text(n: Nibble) -> Seq<char> {
    hex2(n.value) + if n.sync_bits > 0 {
        seq!['^'] + decimal2(n.sync_bits as nat)
    } else {
        "   "@
    }
}

impl Nibble {
    /// See `nibble_text`.
    pub fn text(&self) -> (r: String)
        ensures
            r@ == nibble_text(*self),
    {
        let mut s = hex_byte(self.value);
        if self.sync_bits > 0 {
            string_push(&mut s, '^');
            if self.sync_bits < 10 {
                string_push(&mut s, '0');
            }
            let d = decimal_string(self.sync_bits);
            s.append(d.as_str());
            assert(s@ =~= nibble_text(*self));
        } else {
            s.append("   ");
        }
        s
    }
}

/// The dump of the items whose texts are `texts`, from `address` to
/// `address + length` included (see `dump`).
pub fn hex_dump_texts(texts: &Vec<String>, address: u16, length: u16) -> (r: String)
    requires
        address + length <= u16::MAX,
    ensures
        r@ == dump(texts@.map_values(|t: String| t@), address as int, length as int),
{
    let ghost ts = texts@.map_values(|t: String| t@);
    let mut s = String::new();
    let mut i: u32 = 0;
    while i <= length as u32
        invariant
            i <= length + 1,
            address + length <= u16::MAX,
            ts == texts@.map_values(|t: String| t@),
            s@ == dump_pieces(ts, address as int, i as int),
        decreases length + 1 - i,
    {
        if i > 0 && i % 16 == 0 {
            string_push(&mut s, '\n');
        }
        let offset: u16 = (address as u32 + i) as u16;
        if i % 16 == 0 {
            push_hex4(&mut s, offset);
            s.append(" | ");
        }
        if (offset as usize) < texts.len() {
            s.append(texts[offset as usize].as_str());
            string_push(&mut s, ' ');
        }
        assert(s@ =~= dump_pieces(ts, address as int, i + 1));
        i += 1;
    }
    s.append("\n====\n");
    s
}

/// The texts of bytes in two hexadecimal digits.
fn byte_texts(b: &[u8]) -> (r: Vec<String>)
    ensures
        r@.len() == b@.len(),
        forall|k: int| 0 <= k < b@.len() ==> #[trigger] r@[k]@ == hex2(b@[k]),
{
    let mut v: Vec<String> = Vec::new();
    let mut i: usize = 0;
    while i < b.len()
        invariant
            i <= b@.len(),
            v@.len() == i,
            forall|k: int| 0 <= k < i ==> #[trigger] v@[k]@ == hex2(b@[k]),
        decreases b@.len() - i,
    {
        v.push(hex_byte(b[i]));
        i += 1;
    }
    v
}

/// The dump of the bytes of `b` from `address` to `address + length`
/// included, in hexadecimal.
pub fn hex_dump_at(b: &[u8], address: u16, length: u16) -> (r: String)
    requires
        address + length <= u16::MAX,
    ensures
        r@ == dump(b@.map_values(|v: u8| hex2(v)), address as int, length as int),
{
    let texts = byte_texts(b);
    assert(texts@.map_values(|t: String| t@) =~= b@.map_values(|v: u8| hex2(v)));
    hex_dump_texts(&texts, address, length)
}

/// The dump of all of `b`, in hexadecimal (its length taken modulo 0x10000).
pub fn hex_dump(b: &[u8]) -> (r: String)
    ensures
        r@ == dump(b@.map_values(|v: u8| hex2(v)), 0, (b@.len() % 0x10000) as int),
{
    let length: u16 = (b.len() % 0x10000) as u16;
    hex_dump_at(b, 0, length)
}

/// The dump of all of `b`, each nibble shown as `nibble_text` says.
pub fn hex_dump_nibbles(b: &[Nibble]) -> (r: String)
    ensures
        r@ == dump(b@.map_values(|n: Nibble| nibble_text(n)), 0, (b@.len() % 0x10000) as int),
{
    let mut texts: Vec<String> = Vec::new();
    let mut i: usize = 0;
    while i < b.len()
        invariant
            i <= b@.len(),
            texts@.len() == i,
            forall|k: int| 0 <= k < i ==> #[trigger] texts@[k]@ == nibble_text(b@[k]),
        decreases b@.len() - i,
    {
        texts.push(b[i].text());
        i += 1;
    }
    assert(texts@.map_values(|t: String| t@) =~= b@.map_values(|n: Nibble| nibble_text(n)));
    let length: u16 = (b.len() % 0x10000) as u16;
    hex_dump_texts(&texts, 0, length)
}

} // verus!
