//! The player record, the labels of its fields, and how a kit number is read.

use vstd::prelude::*;

verus! {

/// One row of the table.
pub struct Player {
    pub name: String,
    pub position: String,
    pub dob: String,
    pub nationality: String,
    pub kit: u8,
}

/// What a `Player` holds, as plain values.
pub ghost struct PlayerView {
    pub name: Seq<char>,
    pub position: Seq<char>,
    pub dob: Seq<char>,
    pub nationality: Seq<char>,
    pub kit: u8,
}

impl View for Player {
    type V = PlayerView;

    open spec fn view(&self) -> PlayerView {
        PlayerView {
            name: self.name@,
            position: self.position@,
            dob: self.dob@,
            nationality: self.nationality@,
            kit: self.kit,
        }
    }
}

/// The five fields of a record.
#[derive(Clone, Copy, Debug, PartialEq, Eq, Structural)]
pub enum Field {
    Name,
    Position,
    Dob,
    Nationality,
    Kit,
}

/// The field that a column header stands for. Labels are case-sensitive:
/// each field answers to its JSON key and to that key in Pascal case
/// (the two coincide for `DOB` and `Kit Number`).
pub open spec fn field_of_label(h: Seq<char>) -> Option<Field> {
    if h == "name"@ || h == "Name"@ {
        Some(Field::Name)
    } else if h == "position"@ || h == "Position"@ {
        Some(Field::Position)
    } else if h == "DOB"@ {
        Some(Field::Dob)
    } else if h == "nationality"@ || h == "Nationality"@ {
        Some(Field::Nationality)
    } else if h == "Kit Number"@ {
        Some(Field::Kit)
    } else {
        None
    }
}

/// Whether two texts hold the same characters.
pub fn same_text(a: &str, b: &str) -> (r: bool)
    ensures
        r == (a@ == b@),
{
    let n = a.unicode_len();
    if n != b.unicode_len() {
        return false;
    }
    let mut i: usize = 0;
    while i < n
        invariant
            n == a@.len() == b@.len(),
            i <= n,
            a@.subrange(0, i as int) == b@.subrange(0, i as int),
        decreases n - i,
    {
        if a.get_char(i) != b.get_char(i) {
            return false;
        }
        assert(a@.subrange(0, i + 1) == a@.subrange(0, i as int).push(a@[i as int]));
        assert(b@.subrange(0, i + 1) == b@.subrange(0, i as int).push(b@[i as int]));
        i = i + 1;
    }
    assert(a@ == a@.subrange(0, n as int));
    assert(b@ == b@.subrange(0, n as int));
    true
}

/// The field that the header `h` stands for, if any.
pub fn field_of_header(h: &str) -> (r: Option<Field>)
    ensures
        r == field_of_label(h@),
{
    if same_text(h, "name") || same_text(h, "Name") {
        Some(Field::Name)
    } else if same_text(h, "position") || same_text(h, "Position") {
        Some(Field::Position)
    } else if same_text(h, "DOB") {
        Some(Field::Dob)
    } else if same_text(h, "nationality") || same_text(h, "Nationality") {
        Some(Field::Nationality)
    } else if same_text(h, "Kit Number") {
        Some(Field::Kit)
    } else {
        None
    }
}

/// The value of `c` as a digit in base `radix` (10 or 16).
pub open spec fn digit_value(c: char, radix: nat) -> Option<nat> {
    if '0' <= c && c <= '9' {
        Some((c as nat - '0' as nat) as nat)
    } else if radix == 16 && 'a' <= c && c <= 'f' {
        Some((c as nat - 'a' as nat + 10) as nat)
    } else if radix == 16 && 'A' <= c && c <= 'F' {
        Some((c as nat - 'A' as nat + 10) as nat)
    } else {
        None
    }
}

/// Every character of `s` is a digit in base `radix`.
pub open spec fn all_digits(s: Seq<char>, radix: nat) -> bool {
    forall|i: int| 0 <= i < s.len() ==> (#[trigger] digit_value(s[i], radix)).is_some()
}

/// The number that the digits `s` write in base `radix`, most significant first.
pub open spec fn digits_value(s: Seq<char>, radix: nat) -> nat
    decreases s.len(),
{
    if s.len() == 0 {
        0
    } else {
        digits_value(s.drop_last(), radix) * radix + digit_value(s.last(), radix).unwrap_or(0)
    }
}

/// An unsigned byte written in base `radix`: an optional `+`, then at least
/// one digit, with a value of at most 255.
pub open spec fn parse_u8(s: Seq<char>, radix: nat) -> Option<u8> {
    let body = if s.len() > 0 && s[0] == '+' { s.drop_first() } else { s };
    if body.len() > 0 && all_digits(body, radix) && digits_value(body, radix) <= 255 {
        Some(digits_value(body, radix) as u8)
    } else {
        None
    }
}

/// A kit number as written in a cell: hexadecimal after a `0x` prefix,
/// decimal otherwise.
pub open spec fn kit_of_text(s: Seq<char>) -> Option<u8> {
    if s.len() >= 2 && s[0] == '0' && s[1] == 'x' {
        parse_u8(s.subrange(2, s.len() as int), 16)
    } else {
        parse_u8(s, 10)
    }
}

proof fn lemma_digits_value_grows(s: Seq<char>, radix: nat, i: int, j: int)
    requires
        radix >= 1,
        0 <= i <= j <= s.len(),
    ensures
        digits_value(s.subrange(0, i), radix) <= digits_value(s.subrange(0, j), radix),
    decreases j - i,
{
    if i < j {
        lemma_digits_value_grows(s, radix, i, j - 1);
        let p = s.subrange(0, j);
        assert(p.drop_last() == s.subrange(0, j - 1));
        let v = digits_value(s.subrange(0, j - 1), radix);
        assert(v * radix >= v) by (nonlinear_arith)
            requires
                radix >= 1,
        ;
    }
}

/// The value of one digit character, in base 10 or 16.
fn digit_of(c: char, radix: u32) -> (r: Option<u32>)
    requires
        radix == 10 || radix == 16,
    ensures
        r matches Some(d) ==> digit_value(c, radix as nat) == Some(d as nat) && d < radix,
        r is None ==> digit_value(c, radix as nat) is None,
{
    if '0' <= c && c <= '9' {
        Some(c as u32 - '0' as u32)
    } else if radix == 16 && 'a' <= c && c <= 'f' {
        Some(c as u32 - 'a' as u32 + 10)
    } else if radix == 16 && 'A' <= c && c <= 'F' {
        Some(c as u32 - 'A' as u32 + 10)
    } else {
        None
    }
}

/// Reads an unsigned byte written in base `radix`, from position `start` of `s`.
fn parse_u8_from(s: &str, start: usize, radix: u32) -> (r: Option<u8>)
    requires
        radix == 10 || radix == 16,
        start <= s@.len(),
    ensures
        r == parse_u8(s@.subrange(start as int, s@.len() as int), radix as nat),
{
    let ghost t = s@.subrange(start as int, s@.len() as int);
    let n = s.unicode_len();
    let mut i: usize = start;
    if i < n && s.get_char(i) == '+' {
        i = i + 1;
    }
    let ghost body = s@.subrange(i as int, n as int);
    assert(body == if t.len() > 0 && t[0] == '+' { t.drop_first() } else { t });
    if i == n {
        return None;
    }
    let first = i;
    let mut acc: u32 = 0;
    while i < n
        invariant
            n == s@.len(),
            first <= i <= n,
            t == s@.subrange(start as int, s@.len() as int),
            body == (if t.len() > 0 && t[0] == '+' { t.drop_first() } else { t }),
            body == s@.subrange(first as int, n as int),
            radix == 10 || radix == 16,
            all_digits(s@.subrange(first as int, i as int), radix as nat),
            acc as nat == digits_value(s@.subrange(first as int, i as int), radix as nat),
            acc <= 255,
        decreases n - i,
    {
        let ghost pre = s@.subrange(first as int, i as int);
        let ghost next = s@.subrange(first as int, i + 1);
        assert(next.drop_last() == pre);
        assert(next.last() == s@[i as int]);
        match digit_of(s.get_char(i), radix) {
            None => {
                assert(body[i - first] == s@[i as int]);
                return None;
            },
            Some(d) => {
                let v = acc * radix + d;
                assert(digits_value(next, radix as nat) == v);
                if v > 255 {
                    assert(body.subrange(0, (i + 1 - first) as int) == next);
                    assert(body.subrange(0, body.len() as int) == body);
                    proof {
                        lemma_digits_value_grows(body, radix as nat, (i + 1 - first) as int, body.len() as int);
                    }
                    return None;
                }
                acc = v;
                i = i + 1;
                assert forall|k: int| 0 <= k < next.len() implies (#[trigger] digit_value(next[k], radix as nat)).is_some() by {
                    if k < pre.len() {
                        assert(next[k] == pre[k]);
                    }
                }
            },
        }
    }
    assert(body == s@.subrange(first as int, i as int));
    Some(acc as u8)
}

/// Reads a kit number from the text of a cell.
pub fn parse_kit(s: &str) -> (r: Option<u8>)
    ensures
        r == kit_of_text(s@),
{
    let n = s.unicode_len();
    if n >= 2 && s.get_char(0) == '0' && s.get_char(1) == 'x' {
        parse_u8_from(s, 2, 16)
    } else {
        assert(s@.subrange(0, n as int) == s@);
        parse_u8_from(s, 0, 10)
    }
}

} // verus!
