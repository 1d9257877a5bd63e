//! Turning rows of cells into players, by the labels of the header row.

use vstd::prelude::*;
use crate::record::{field_of_header, field_of_label, kit_of_text, parse_kit, Field, Player, PlayerView};

verus! {

/// Why a row could not be read as a player.
#[derive(Clone, Copy, Debug, PartialEq, Eq, Structural)]
pub enum RowError {
    /// No column of the header stands for this field.
    MissingField(Field),
    /// Two columns of the header stand for this field.
    DuplicateField(Field),
    /// The kit number cell is not an unsigned byte.
    InvalidKit,
}

/// The fields found so far while reading a row from left to right.
pub ghost struct Found {
    pub name: Option<Seq<char>>,
    pub position: Option<Seq<char>>,
    pub dob: Option<Seq<char>>,
    pub nationality: Option<Seq<char>>,
    pub kit: Option<u8>,
}

pub open spec fn nothing_found() -> Found {
    Found { name: None, position: None, dob: None, nationality: None, kit: None }
}

pub open spec fn is_found(s: Found, f: Field) -> bool {
    match f {
        Field::Name => s.name is Some,
        Field::Position => s.position is Some,
        Field::Dob => s.dob is Some,
        Field::Nationality => s.nationality is Some,
        Field::Kit => s.kit is Some,
    }
}

/// Reads one cell under the header `h`: a column of no field is skipped, a
/// field seen twice is refused, and a kit number must be an unsigned byte.
pub open spec fn take_cell(s: Found, h: Seq<char>, cell: Seq<char>) -> Result<Found, RowError> {
    match field_of_label(h) {
        None => Ok(s),
        Some(f) => if is_found(s, f) {
            Err(RowError::DuplicateField(f))
        } else {
            match f {
                Field::Name => Ok(Found { name: Some(cell), ..s }),
                Field::Position => Ok(Found { position: Some(cell), ..s }),
                Field::Dob => Ok(Found { dob: Some(cell), ..s }),
                Field::Nationality => Ok(Found { nationality: Some(cell), ..s }),
                Field::Kit => match kit_of_text(cell) {
                    Some(k) => Ok(Found { kit: Some(k), ..s }),
                    None => Err(RowError::InvalidKit),
                },
            }
        },
    }
}

/// The fields found in the first `k` columns of the row `r` under the header `h`.
pub open spec fn scan_cells(h: Seq<Seq<char>>, r: Seq<Seq<char>>, k: nat) -> Result<Found, RowError>
    decreases k,
{
    if k == 0 {
        Ok(nothing_found())
    } else {
        match scan_cells(h, r, (k - 1) as nat) {
            Ok(s) => take_cell(s, h[k - 1], r[k - 1]),
            Err(e) => Err(e),
        }
    }
}

/// The player made of the fields found, or the first missing field.
pub open spec fn complete(s: Found) -> Result<PlayerView, RowError> {
    if s.name is None {
        Err(RowError::MissingField(Field::Name))
    } else if s.position is None {
        Err(RowError::MissingField(Field::Position))
    } else if s.dob is None {
        Err(RowError::MissingField(Field::Dob))
    } else if s.nationality is None {
        Err(RowError::MissingField(Field::Nationality))
    } else if s.kit is None {
        Err(RowError::MissingField(Field::Kit))
    } else {
        Ok(PlayerView {
            name: s.name.unwrap(),
            position: s.position.unwrap(),
            dob: s.dob.unwrap(),
            nationality: s.nationality.unwrap(),
            kit: s.kit.unwrap(),
        })
    }
}

/// The number of columns read from a row: those that have both a header and a cell.
pub open spec fn width(h: Seq<Seq<char>>, r: Seq<Seq<char>>) -> nat {
    if h.len() <= r.len() { h.len() } else { r.len() }
}

/// The player that the row `r` gives under the header `h`.
pub open spec fn row_player(h: Seq<Seq<char>>, r: Seq<Seq<char>>) -> Result<PlayerView, RowError> {
    match scan_cells(h, r, width(h, r)) {
        Ok(s) => complete(s),
        Err(e) => Err(e),
    }
}

/// The players of all rows in order, or the index of the first row that
/// fails, with the reason.
pub open spec fn table_players(h: Seq<Seq<char>>, rows: Seq<Seq<Seq<char>>>) -> Result<Seq<PlayerView>, (nat, RowError)>
    decreases rows.len(),
{
    if rows.len() == 0 {
        Ok(Seq::empty())
    } else {
        match table_players(h, rows.drop_last()) {
            Err(e) => Err(e),
            Ok(ps) => match row_player(h, rows.last()) {
                Ok(p) => Ok(ps.push(p)),
                Err(e) => Err(((rows.len() - 1) as nat, e)),
            },
        }
    }
}

/// A cell that fails decides the result of the whole row.
proof fn lemma_cell_failure_persists(h: Seq<Seq<char>>, r: Seq<Seq<char>>, i: nat, j: nat)
    requires
        i <= j,
        scan_cells(h, r, i) is Err,
    ensures
        scan_cells(h, r, j) == scan_cells(h, r, i),
    decreases j - i,
{
    if i < j {
        lemma_cell_failure_persists(h, r, i, (j - 1) as nat);
    }
}

/// A row that fails decides the result of every longer table.
proof fn lemma_failure_persists(h: Seq<Seq<char>>, rows: Seq<Seq<Seq<char>>>, i: int, j: int)
    requires
        0 <= i <= j <= rows.len(),
        table_players(h, rows.subrange(0, i)) is Err,
    ensures
        table_players(h, rows.subrange(0, j)) == table_players(h, rows.subrange(0, i)),
    decreases j - i,
{
    if i < j {
        lemma_failure_persists(h, rows, i, j - 1);
        assert(rows.subrange(0, j).drop_last() == rows.subrange(0, j - 1));
    }
}

/// Reads the row `row` as a player, matching cells to fields by the labels
/// of `headers`.
pub fn decode_row(headers: &Vec<String>, row: &Vec<String>) -> (r: Result<Player, RowError>)
    ensures
        r matches Ok(p) ==> row_player(headers.deep_view(), row.deep_view()) == Ok::<PlayerView, RowError>(p@),
        r matches Err(e) ==> row_player(headers.deep_view(), row.deep_view()) == Err::<PlayerView, RowError>(e),
{
    let ghost h = headers.deep_view();
    let ghost cells = row.deep_view();
    let n: usize = if headers.len() <= row.len() { headers.len() } else { row.len() };
    let mut name: Option<String> = None;
    let mut position: Option<String> = None;
    let mut dob: Option<String> = None;
    let mut nationality: Option<String> = None;
    let mut kit: Option<u8> = None;
    let mut i: usize = 0;
    while i < n
        invariant
            h == headers.deep_view(),
            cells == row.deep_view(),
            n == width(h, cells),
            i <= n,
            scan_cells(h, cells, i as nat) == Ok::<Found, RowError>(Found {
                name: match name { Some(v) => Some(v@), None => None },
                position: match position { Some(v) => Some(v@), None => None },
                dob: match dob { Some(v) => Some(v@), None => None },
                nationality: match nationality { Some(v) => Some(v@), None => None },
                kit,
            }),
        decreases n - i,
    {
        let cell = &row[i];
        assert(h[i as int] == headers@[i as int]@);
        assert(cells[i as int] == cell@);
        match field_of_header(headers[i].as_str()) {
            None => {},
            Some(Field::Name) => {
                if name.is_some() {
                    proof {
                        lemma_cell_failure_persists(h, cells, (i + 1) as nat, n as nat);
                    }
                    return Err(RowError::DuplicateField(Field::Name));
                }
                name = Some(cell.clone());
            },
            Some(Field::Position) => {
                if position.is_some() {
                    proof {
                        lemma_cell_failure_persists(h, cells, (i + 1) as nat, n as nat);
                    }
                    return Err(RowError::DuplicateField(Field::Position));
                }
                position = Some(cell.clone());
            },
            Some(Field::Dob) => {
                if dob.is_some() {
                    proof {
                        lemma_cell_failure_persists(h, cells, (i + 1) as nat, n as nat);
                    }
                    return Err(RowError::DuplicateField(Field::Dob));
                }
                dob = Some(cell.clone());
            },
            Some(Field::Nationality) => {
                if nationality.is_some() {
                    proof {
                        lemma_cell_failure_persists(h, cells, (i + 1) as nat, n as nat);
                    }
                    return Err(RowError::DuplicateField(Field::Nationality));
                }
                nationality = Some(cell.clone());
            },
            Some(Field::Kit) => {
                if kit.is_some() {
                    proof {
                        lemma_cell_failure_persists(h, cells, (i + 1) as nat, n as nat);
                    }
                    return Err(RowError::DuplicateField(Field::Kit));
                }
                match parse_kit(cell.as_str()) {
                    Some(k) => {
                        kit = Some(k);
                    },
                    None => {
                        proof {
                            lemma_cell_failure_persists(h, cells, (i + 1) as nat, n as nat);
                        }
                        return Err(RowError::InvalidKit);
                    },
                }
            },
        }
        i = i + 1;
    }
    match (name, position, dob, nationality, kit) {
        (None, _, _, _, _) => Err(RowError::MissingField(Field::Name)),
        (_, None, _, _, _) => Err(RowError::MissingField(Field::Position)),
        (_, _, None, _, _) => Err(RowError::MissingField(Field::Dob)),
        (_, _, _, None, _) => Err(RowError::MissingField(Field::Nationality)),
        (_, _, _, _, None) => Err(RowError::MissingField(Field::Kit)),
        (Some(name), Some(position), Some(dob), Some(nationality), Some(kit)) => {
            Ok(Player { name, position, dob, nationality, kit })
        },
    }
}

/// Reads every row as a player, in order, stopping at the first row that
/// fails; the error gives that row's index and the reason.
pub fn decode_rows(headers: &Vec<String>, rows: &Vec<Vec<String>>) -> (r: Result<Vec<Player>, (usize, RowError)>)
    ensures
        r matches Ok(ps) ==> table_players(headers.deep_view(), rows.deep_view())
            == Ok::<Seq<PlayerView>, (nat, RowError)>(ps@.map_values(|p: Player| p@)),
        r matches Err((k, e)) ==> table_players(headers.deep_view(), rows.deep_view())
            == Err::<Seq<PlayerView>, (nat, RowError)>((k as nat, e)),
{
    let ghost h = headers.deep_view();
    let ghost all = rows.deep_view();
    let mut out: Vec<Player> = Vec::with_capacity(rows.len());
    let mut i: usize = 0;
    assert(all.subrange(0, 0) =~= Seq::<Seq<Seq<char>>>::empty());
    assert(out@.map_values(|p: Player| p@) =~= Seq::<PlayerView>::empty());
    while i < rows.len()
        invariant
            h == headers.deep_view(),
            all == rows.deep_view(),
            i <= rows.len(),
            table_players(h, all.subrange(0, i as int))
                == Ok::<Seq<PlayerView>, (nat, RowError)>(out@.map_values(|p: Player| p@)),
        decreases rows.len() - i,
    {
        let ghost pre = all.subrange(0, i as int);
        let ghost next = all.subrange(0, i + 1);
        assert(next.drop_last() == pre);
        assert(next.last() == rows@[i as int].deep_view());
        match decode_row(headers, &rows[i]) {
            Ok(p) => {
                let ghost before = out@.map_values(|p: Player| p@);
                out.push(p);
                assert(out@.map_values(|p: Player| p@) =~= before.push(p@));
            },
            Err(e) => {
                proof {
                    lemma_failure_persists(h, all, (i + 1) as int, all.len() as int);
                }
                assert(all.subrange(0, all.len() as int) == all);
                return Err((i, e));
            },
        }
        i = i + 1;
    }
    assert(all.subrange(0, rows.len() as int) == all);
    Ok(out)
}

/// Every row gives exactly one player, in the order of the rows: the table
/// converts exactly when each of its rows does, and then the players are
/// the rows' players, one for one.
pub proof fn law_one_player_per_row(h: Seq<Seq<char>>, rows: Seq<Seq<Seq<char>>>)
    ensures
        (table_players(h, rows) is Ok) <==> (forall|i: int| 0 <= i < rows.len() ==> (#[trigger] row_player(h, rows[i])) is Ok),
        table_players(h, rows) matches Ok(ps) ==> ps.len() == rows.len()
            && forall|i: int| 0 <= i < rows.len() ==> row_player(h, rows[i]) == Ok::<PlayerView, RowError>(#[trigger] ps[i]),
    decreases rows.len(),
{
    if rows.len() > 0 {
        let pre = rows.drop_last();
        law_one_player_per_row(h, pre);
        assert forall|i: int| 0 <= i < pre.len() implies #[trigger] pre[i] == rows[i] by {}
        if (forall|i: int| 0 <= i < rows.len() ==> (#[trigger] row_player(h, rows[i])) is Ok) {
            assert(row_player(h, rows[rows.len() - 1]) is Ok);
            assert forall|i: int| 0 <= i < pre.len() implies (#[trigger] row_player(h, pre[i])) is Ok by {
                assert(row_player(h, rows[i]) is Ok);
            }
        }
        if table_players(h, pre) is Err {
            let i = choose|i: int| 0 <= i < pre.len() && !(#[trigger] row_player(h, pre[i]) is Ok);
            assert(!(row_player(h, rows[i]) is Ok));
        }
        if table_players(h, rows) is Ok {
            assert forall|i: int| 0 <= i < rows.len() implies (#[trigger] row_player(h, rows[i])) is Ok by {
                if i < pre.len() {
                    assert(row_player(h, pre[i]) is Ok);
                }
            }
        }
    }
}

/// What the scan has found of the date of birth and the kit number stands
/// in a column labelled `DOB` or `Kit Number` among the first `k`.
proof fn lemma_found_in_labelled_column(h: Seq<Seq<char>>, r: Seq<Seq<char>>, k: nat)
    requires
        k <= h.len(),
        k <= r.len(),
    ensures
        scan_cells(h, r, k) matches Ok(s) ==> (s.dob matches Some(d) ==> exists|i: int|
            0 <= i < k && h[i] == "DOB"@ && #[trigger] r[i] == d),
        scan_cells(h, r, k) matches Ok(s) ==> (s.kit matches Some(n) ==> exists|i: int|
            0 <= i < k && h[i] == "Kit Number"@ && kit_of_text(#[trigger] r[i]) == Some(n)),
    decreases k,
{
    if k > 0 {
        lemma_found_in_labelled_column(h, r, (k - 1) as nat);
    }
}

/// The date of birth of a player is the cell under the `DOB` header, and
/// its kit number is the number written in the cell under `Kit Number`.
pub proof fn law_field_mapping(h: Seq<Seq<char>>, r: Seq<Seq<char>>)
    ensures
        row_player(h, r) matches Ok(p) ==> exists|i: int|
            0 <= i < width(h, r) && h[i] == "DOB"@ && #[trigger] r[i] == p.dob,
        row_player(h, r) matches Ok(p) ==> exists|i: int|
            0 <= i < width(h, r) && h[i] == "Kit Number"@ && kit_of_text(#[trigger] r[i]) == Some(p.kit),
{
    lemma_found_in_labelled_column(h, r, width(h, r));
}

/// A table fails as soon as one of its rows holds, under the `Kit Number`
/// header, a cell that is not an unsigned byte.
pub proof fn law_bad_kit_fails(h: Seq<Seq<char>>, rows: Seq<Seq<Seq<char>>>, k: int, i: int)
    requires
        0 <= k < rows.len(),
        0 <= i < width(h, rows[k]),
        h[i] == "Kit Number"@,
        kit_of_text(rows[k][i]) is None,
    ensures
        table_players(h, rows) is Err,
{
    reveal_strlit("Kit Number");
    reveal_strlit("name");
    reveal_strlit("Name");
    reveal_strlit("position");
    reveal_strlit("Position");
    reveal_strlit("DOB");
    reveal_strlit("nationality");
    reveal_strlit("Nationality");
    let r = rows[k];
    assert(h[i].len() == 10);
    assert("name"@.len() == 4 && "Name"@.len() == 4 && "DOB"@.len() == 3);
    assert("position"@.len() == 8 && "Position"@.len() == 8);
    assert("nationality"@.len() == 11 && "Nationality"@.len() == 11);
    assert(field_of_label(h[i]) == Some(Field::Kit));
    assert(scan_cells(h, r, (i + 1) as nat) is Err);
    lemma_cell_failure_persists(h, r, (i + 1) as nat, width(h, r));
    assert(row_player(h, r) is Err);
    let pre = rows.subrange(0, k + 1);
    assert(pre.drop_last() == rows.subrange(0, k));
    assert(pre.last() == r);
    assert(table_players(h, pre) is Err);
    lemma_failure_persists(h, rows, k + 1, rows.len() as int);
    assert(rows.subrange(0, rows.len() as int) == rows);
}

/// Scanning with one more column, of no field, inserted at `j`: the first
/// `k` columns read as before up to `j`, and one column later after it.
proof fn lemma_scan_skips_unknown(
    h: Seq<Seq<char>>,
    r: Seq<Seq<char>>,
    j: int,
    label: Seq<char>,
    cell: Seq<char>,
    k: nat,
)
    requires
        h.len() == r.len(),
        0 <= j <= h.len(),
        field_of_label(label) is None,
        k <= h.len(),
    ensures
        k <= j ==> scan_cells(h.insert(j, label), r.insert(j, cell), k) == scan_cells(h, r, k),
        k >= j ==> scan_cells(h.insert(j, label), r.insert(j, cell), k + 1) == scan_cells(h, r, k),
    decreases k,
{
    let h2 = h.insert(j, label);
    let r2 = r.insert(j, cell);
    if k > 0 {
        lemma_scan_skips_unknown(h, r, j, label, cell, (k - 1) as nat);
        if k <= j {
            assert(h2[k - 1] == h[k - 1] && r2[k - 1] == r[k - 1]);
        } else {
            assert(h2[k as int] == h[k - 1] && r2[k as int] == r[k - 1]);
        }
    }
    if k == j {
        assert(h2[k as int] == label);
    }
}

/// Columns are bound by their header, not by their place: a column whose
/// header names no field, inserted anywhere, changes no row's player.
pub proof fn law_unknown_column_ignored(
    h: Seq<Seq<char>>,
    r: Seq<Seq<char>>,
    j: int,
    label: Seq<char>,
    cell: Seq<char>,
)
    requires
        h.len() == r.len(),
        0 <= j <= h.len(),
        field_of_label(label) is None,
    ensures
        row_player(h.insert(j, label), r.insert(j, cell)) == row_player(h, r),
{
    lemma_scan_skips_unknown(h, r, j, label, cell, h.len());
}

/// Two scans that agree after `from` columns agree after `k`, where the
/// columns in between are the same.
proof fn lemma_scan_agrees(
    h: Seq<Seq<char>>,
    r: Seq<Seq<char>>,
    h2: Seq<Seq<char>>,
    r2: Seq<Seq<char>>,
    from: nat,
    k: nat,
)
    requires
        from <= k,
        scan_cells(h, r, from) == scan_cells(h2, r2, from),
        forall|m: int| from <= m < k ==> h[m] == h2[m] && r[m] == r2[m],
    ensures
        scan_cells(h, r, k) == scan_cells(h2, r2, k),
    decreases k - from,
{
    if from < k {
        lemma_scan_agrees(h, r, h2, r2, from, (k - 1) as nat);
    }
}

/// Two cells that can both be taken can be taken in either order, with
/// the same fields found.
proof fn lemma_cells_commute(s: Found, ha: Seq<char>, ca: Seq<char>, hb: Seq<char>, cb: Seq<char>)
    requires
        take_cell(s, ha, ca) is Ok,
        take_cell(take_cell(s, ha, ca)->Ok_0, hb, cb) is Ok,
    ensures
        take_cell(s, hb, cb) is Ok,
        take_cell(take_cell(s, hb, cb)->Ok_0, ha, ca) == take_cell(take_cell(s, ha, ca)->Ok_0, hb, cb),
{
}

/// The sequence `s` with its items at `i` and `i + 1` swapped.
pub open spec fn swap_next<A>(s: Seq<A>, i: int) -> Seq<A> {
    s.update(i, s[i + 1]).update(i + 1, s[i])
}

/// Columns are bound by their header, not by their place: swapping two
/// neighbouring columns, header and cells alike, leaves a row that reads
/// as a player reading as the same player. Any order of the columns is
/// reached by such swaps.
pub proof fn law_neighbour_columns_swap(h: Seq<Seq<char>>, r: Seq<Seq<char>>, i: int)
    requires
        h.len() == r.len(),
        0 <= i,
        i + 1 < h.len(),
        row_player(h, r) is Ok,
    ensures
        row_player(swap_next(h, i), swap_next(r, i)) == row_player(h, r),
{
    let h2 = swap_next(h, i);
    let r2 = swap_next(r, i);
    let n = h.len();
    lemma_scan_agrees(h, r, h2, r2, 0, i as nat);
    if scan_cells(h, r, (i + 2) as nat) is Err {
        lemma_cell_failure_persists(h, r, (i + 2) as nat, n);
    }
    if scan_cells(h, r, (i + 1) as nat) is Err {
        lemma_cell_failure_persists(h, r, (i + 1) as nat, n);
    }
    assert(scan_cells(h, r, (i + 2) as nat) is Ok);
    assert(scan_cells(h, r, (i + 1) as nat) is Ok);
    assert(h2[i] == h[i + 1] && h2[i + 1] == h[i] && r2[i] == r[i + 1] && r2[i + 1] == r[i]);
    let before = scan_cells(h, r, i as nat)->Ok_0;
    lemma_cells_commute(before, h[i], r[i], h[i + 1], r[i + 1]);
    assert(scan_cells(h, r, (i + 1) as nat) == take_cell(before, h[i], r[i]));
    assert(scan_cells(h2, r2, (i + 1) as nat) == take_cell(before, h[i + 1], r[i + 1]));
    assert(scan_cells(h2, r2, (i + 2) as nat) == scan_cells(h, r, (i + 2) as nat));
    lemma_scan_agrees(h, r, h2, r2, (i + 2) as nat, n);
}

} // verus!
