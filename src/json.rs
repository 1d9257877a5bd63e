//! Writing players as a pretty-printed JSON document: a list of objects
//! indented by two spaces a level, keys in a fixed order.

use vstd::prelude::*;
use crate::record::{Player, PlayerView};

verus! {

#[verifier::external_type_specification]
#[verifier::external_body]
pub struct ExJsonError(serde_json::Error);

/// Relies on serde_json::to_string on a `str`: the text as a JSON string
/// literal. Writing into its in-memory buffer cannot fail.
#[verifier::external_body]
fn quote(s: &str) -> (r: Result<String, serde_json::Error>)
    ensures
        r is Ok,
        r matches Ok(t) ==> t@ == json_quote(s@),
{
    serde_json::to_string(s)
}

/// The character of the decimal digit `d`.
pub open spec fn digit_char(d: nat) -> char {
    if d == 0 { '0' } else if d == 1 { '1' } else if d == 2 { '2' } else if d == 3 { '3' }
    else if d == 4 { '4' } else if d == 5 { '5' } else if d == 6 { '6' } else if d == 7 { '7' }
    else if d == 8 { '8' } else { '9' }
}

/// The decimal digits of `n`, without leading zeros.
pub open spec fn decimal(n: nat) -> Seq<char>
    decreases n,
{
    if n < 10 {
        seq![digit_char(n)]
    } else {
        decimal(n / 10).push(digit_char(n % 10))
    }
}

/// The lower-case hexadecimal digit of `d`, below 16.
pub open spec fn hex_digit(d: nat) -> char {
    if d < 10 { digit_char(d) } else if d == 10 { 'a' } else if d == 11 { 'b' } else if d == 12 { 'c' }
    else if d == 13 { 'd' } else if d == 14 { 'e' } else { 'f' }
}

/// How one character stands inside a JSON string literal: the quote and the
/// backslash after a backslash, the usual short escapes for backspace, tab,
/// line feed, form feed and carriage return, any other control character
/// below 0x20 as `\u00` and two hexadecimal digits, and anything else as
/// itself.
pub open spec fn escape_char(c: char) -> Seq<char> {
    if c == '"' {
        seq!['\\', '"']
    } else if c == '\\' {
        seq!['\\', '\\']
    } else if c == '\u{8}' {
        seq!['\\', 'b']
    } else if c == '\t' {
        seq!['\\', 't']
    } else if c == '\n' {
        seq!['\\', 'n']
    } else if c == '\u{c}' {
        seq!['\\', 'f']
    } else if c == '\r' {
        seq!['\\', 'r']
    } else if (c as u32) < 0x20 {
        seq!['\\', 'u', '0', '0', hex_digit((c as u32 / 16) as nat), hex_digit((c as u32 % 16) as nat)]
    } else {
        seq![c]
    }
}

/// The characters of `s`, each escaped.
pub open spec fn escaped(s: Seq<char>) -> Seq<char>
    decreases s.len(),
{
    if s.len() == 0 {
        Seq::empty()
    } else {
        escaped(s.drop_last()) + escape_char(s.last())
    }
}

/// The JSON string literal that writes the text `s`.
pub open spec fn json_quote(s: Seq<char>) -> Seq<char> {
    seq!['"'] + escaped(s) + seq!['"']
}

/// One player's object, at the first level of indentation, from the JSON
/// literals of its four texts and its kit number.
pub open spec fn object_text(
    name: Seq<char>,
    position: Seq<char>,
    dob: Seq<char>,
    nationality: Seq<char>,
    kit: u8,
) -> Seq<char> {
    "  {\n    \"name\": "@ + name + ",\n    \"position\": "@ + position + ",\n    \"DOB\": "@ + dob
        + ",\n    \"nationality\": "@ + nationality + ",\n    \"Kit Number\": "@ + decimal(kit as nat)
        + "\n  }"@
}

/// The object that writes the player `p`.
pub open spec fn player_json(p: PlayerView) -> Seq<char> {
    object_text(json_quote(p.name), json_quote(p.position), json_quote(p.dob), json_quote(p.nationality), p.kit)
}

/// The objects, one after another, separated by a comma and a line break.
pub open spec fn joined(objs: Seq<Seq<char>>) -> Seq<char>
    decreases objs.len(),
{
    if objs.len() == 0 {
        Seq::empty()
    } else if objs.len() == 1 {
        objs[0]
    } else {
        joined(objs.drop_last()) + ",\n"@ + objs.last()
    }
}

/// The document: `[]` when there is no object, else the objects on lines
/// of their own between brackets.
pub open spec fn document_text(objs: Seq<Seq<char>>) -> Seq<char> {
    if objs.len() == 0 {
        "[]"@
    } else {
        "[\n"@ + joined(objs) + "\n]"@
    }
}

/// The document that writes the players `ps`, in order.
pub open spec fn players_document(ps: Seq<PlayerView>) -> Seq<char> {
    document_text(ps.map_values(|p: PlayerView| player_json(p)))
}

/// The document of `ps` lists exactly one object per player, the object of
/// the player at the same position.
pub proof fn law_one_object_per_player(ps: Seq<PlayerView>)
    ensures
        exists|objs: Seq<Seq<char>>|
            objs.len() == ps.len() && players_document(ps) == document_text(objs)
                && forall|i: int| 0 <= i < ps.len() ==> #[trigger] objs[i] == player_json(ps[i]),
{
    let objs = ps.map_values(|p: PlayerView| player_json(p));
    assert(objs.len() == ps.len() && players_document(ps) == document_text(objs));
}

fn digit_text(d: u8) -> (r: &'static str)
    requires
        d < 10,
    ensures
        r@ == seq![digit_char(d as nat)],
{
    proof {
        reveal_strlit("0");
        reveal_strlit("1");
        reveal_strlit("2");
        reveal_strlit("3");
        reveal_strlit("4");
        reveal_strlit("5");
        reveal_strlit("6");
        reveal_strlit("7");
        reveal_strlit("8");
        reveal_strlit("9");
    }
    if d == 0 { "0" } else if d == 1 { "1" } else if d == 2 { "2" } else if d == 3 { "3" }
    else if d == 4 { "4" } else if d == 5 { "5" } else if d == 6 { "6" } else if d == 7 { "7" }
    else if d == 8 { "8" } else { "9" }
}

/// The decimal digits of `n`.
pub fn decimal_text(n: u8) -> (r: String)
    ensures
        r@ == decimal(n as nat),
{
    let mut r = String::new();
    if n >= 100 {
        r.append(digit_text(n / 100));
    }
    if n >= 10 {
        r.append(digit_text(n / 10 % 10));
    }
    r.append(digit_text(n % 10));
    proof {
        reveal_with_fuel(decimal, 3);
        assert(r@ =~= decimal(n as nat));
    }
    r
}

/// One player's object, from the JSON literals of its four texts (as
/// `serde_json` writes them) and its kit number.
pub fn format_object(name: &str, position: &str, dob: &str, nationality: &str, kit: u8) -> (r: String)
    ensures
        r@ == object_text(name@, position@, dob@, nationality@, kit),
{
    let mut r = String::new();
    r.append("  {\n    \"name\": ");
    r.append(name);
    r.append(",\n    \"position\": ");
    r.append(position);
    r.append(",\n    \"DOB\": ");
    r.append(dob);
    r.append(",\n    \"nationality\": ");
    r.append(nationality);
    r.append(",\n    \"Kit Number\": ");
    let k = decimal_text(kit);
    r.append(k.as_str());
    r.append("\n  }");
    assert(r@ =~= object_text(name@, position@, dob@, nationality@, kit));
    r
}

/// The document made of the objects `objects`, in order.
pub fn format_document(objects: &Vec<String>) -> (r: String)
    ensures
        r@ == document_text(objects.deep_view()),
{
    let ghost objs = objects.deep_view();
    if objects.len() == 0 {
        return "[]".to_string();
    }
    let mut r = String::new();
    r.append("[\n");
    r.append(objects[0].as_str());
    let mut i: usize = 1;
    assert(objs.subrange(0, 1).drop_last() =~= Seq::<Seq<char>>::empty());
    assert(r@ =~= "[\n"@ + joined(objs.subrange(0, 1)));
    while i < objects.len()
        invariant
            objs == objects.deep_view(),
            1 <= i <= objects.len(),
            r@ == "[\n"@ + joined(objs.subrange(0, i as int)),
        decreases objects.len() - i,
    {
        r.append(",\n");
        r.append(objects[i].as_str());
        assert(objs.subrange(0, i + 1).drop_last() == objs.subrange(0, i as int));
        assert(r@ =~= "[\n"@ + joined(objs.subrange(0, i + 1)));
        i = i + 1;
    }
    r.append("\n]");
    assert(objs.subrange(0, i as int) == objs);
    r
}

/// The object that writes the player `p`.
pub fn player_to_json(p: &Player) -> (r: Result<String, serde_json::Error>)
    ensures
        r is Ok,
        r matches Ok(t) ==> t@ == player_json(p@),
{
    let name = quote(p.name.as_str())?;
    let position = quote(p.position.as_str())?;
    let dob = quote(p.dob.as_str())?;
    let nationality = quote(p.nationality.as_str())?;
    Ok(format_object(name.as_str(), position.as_str(), dob.as_str(), nationality.as_str(), p.kit))
}

/// The document that writes the players `ps`, in order.
pub fn players_to_json(ps: &Vec<Player>) -> (r: Result<String, serde_json::Error>)
    ensures
        r is Ok,
        r matches Ok(t) ==> t@ == players_document(ps@.map_values(|p: Player| p@)),
{
    let ghost views = ps@.map_values(|p: Player| p@);
    let mut objects: Vec<String> = Vec::with_capacity(ps.len());
    let mut i: usize = 0;
    while i < ps.len()
        invariant
            views == ps@.map_values(|p: Player| p@),
            i <= ps.len(),
            objects.deep_view() =~= views.subrange(0, i as int).map_values(|p: PlayerView| player_json(p)),
        decreases ps.len() - i,
    {
        let o = player_to_json(&ps[i])?;
        let ghost before = objects.deep_view();
        objects.push(o);
        assert(objects.deep_view() =~= before.push(player_json(views[i as int])));
        assert(views.subrange(0, i + 1) =~= views.subrange(0, i as int).push(views[i as int]));
        i = i + 1;
    }
    assert(views.subrange(0, i as int) == views);
    Ok(format_document(&objects))
}

} // verus!
