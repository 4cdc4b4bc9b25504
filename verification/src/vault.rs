use vstd::prelude::*;
use std::collections::HashMap;
use crate::text::{split_whitespace, split_ws_spec, parse_u16, parse_u16_spec, find, index_of, lemma_split_ws_nonempty, lemma_index_of_is};

verus! {

broadcast use vstd::std_specs::hash::group_hash_axioms;

/// Deepest path the search follows, in steps.
pub const MAX_STEPS: usize = 12;

/// A room of the vault: a number, or the operator applied to the next number.
#[derive(Clone, Copy, Debug, PartialEq, Eq, Structural)]
pub enum Cell {
    Num(u16),
    Oper(char),
}

/// Why the vault could not be read or searched.
#[derive(Clone, Copy, Debug, PartialEq, Eq, Structural)]
pub enum VaultError {
    /// A line index does not fit 16 bits.
    LineOutOfRange,
    /// A field index does not fit 16 bits.
    FieldOutOfRange,
    /// The weight after `=` is no 16-bit number.
    BadWeight,
    /// The name before `=` is neither `orb` nor `vault`.
    UnknownName,
    /// `vault` names no room to its left.
    VaultAtEdge,
    /// The search reached a room the map lacks.
    MissingCell(u16, u16),
    /// The orb's room holds no number.
    StartNotNumber,
    /// A number follows something that is no operator.
    UnknownOperator(char),
}

/// The key under which the room at `p` is kept.
pub open spec fn pos_key(p: (u16, u16)) -> u32 {
    (p.0 * 0x10000 + p.1) as u32
}

fn key_of(p: (u16, u16)) -> (k: u32)
    ensures
        k == pos_key(p),
{
    p.0 as u32 * 0x10000 + p.1 as u32
}

/// A path on which the orb reaches the weight of the vault's door.
pub struct Report {
    /// The moves, each `N`, `S`, `E` or `W`.
    pub dirs: Vec<char>,
    /// The operations applied to the orb's weight, in order.
    pub ops: Vec<(char, u16)>,
    /// The weight reached.
    pub weight: u16,
    /// The path ends in the vault's room.
    pub at_end: bool,
}

/// The contents of a `Report`.
pub struct ReportView {
    pub dirs: Seq<char>,
    pub ops: Seq<(char, u16)>,
    pub weight: u16,
    pub at_end: bool,
}

impl View for Report {
    type V = ReportView;

    open spec fn view(&self) -> ReportView {
        ReportView { dirs: self.dirs@, ops: self.ops@, weight: self.weight, at_end: self.at_end }
    }
}

/// The reports' contents.
pub open spec fn reports_view(rs: Seq<Report>) -> Seq<ReportView> {
    rs.map_values(|r: Report| r@)
}

/// The map of the vault and its two ends.
pub struct Layout {
    pub grid: Map<u32, Cell>,
    pub start: (u16, u16),
    pub end: (u16, u16),
    pub end_weight: u16,
}

/// What entering a room does to the weight, the pending operator and the
/// record of operations: a number is applied with the pending operator (`$`
/// at the start applies nothing), an operator becomes the pending one. Weights
/// wrap around modulo 2^16.
pub open spec fn visit_spec(cell: Cell, weight: u16, oper: char, ops: Seq<(char, u16)>) -> Result<
    (u16, char, Seq<(char, u16)>),
    VaultError,
> {
    match cell {
        Cell::Num(c) => if oper == '-' {
            Ok((((weight + 0x10000 - c) % 0x10000) as u16, '@', ops.push((oper, c))))
        } else if oper == '+' {
            Ok((((weight + c) % 0x10000) as u16, '@', ops.push((oper, c))))
        } else if oper == '*' {
            Ok((((weight * c) % 0x10000) as u16, '@', ops.push((oper, c))))
        } else if oper == '$' {
            Ok((weight, '@', ops))
        } else {
            Err(VaultError::UnknownOperator(oper))
        },
        Cell::Oper(o) => Ok((weight, o, ops)),
    }
}

/// The search's answer for a branch not taken.
pub open spec fn nothing() -> (Seq<ReportView>, Option<VaultError>) {
    (Seq::empty(), None)
}

/// Appends the results of a later branch to those of an earlier one, unless
/// the earlier one stopped with an error.
pub open spec fn then_spec(
    a: (Seq<ReportView>, Option<VaultError>),
    b: (Seq<ReportView>, Option<VaultError>),
) -> (Seq<ReportView>, Option<VaultError>) {
    if a.1 is Some {
        a
    } else {
        (a.0 + b.0, b.1)
    }
}

/// The depth-first search from room `pos` with the weight `weight`, the
/// pending operator `oper`, the moves `dirs` made and the operations `ops`
/// applied so far: every time the weight equals the door's, a report; paths
/// longer than `MAX_STEPS` moves are cut; the vault's room ends a path;
/// otherwise the search goes on as `explore_spec` says. The first error stops
/// the search.
pub open spec fn go_spec(
    l: Layout,
    pos: (u16, u16),
    weight: u16,
    oper: char,
    dirs: Seq<char>,
    ops: Seq<(char, u16)>,
) -> (Seq<ReportView>, Option<VaultError>)
    decreases 13 - dirs.len(), 1nat,
{
    if dirs.len() > MAX_STEPS {
        nothing()
    } else if !l.grid.contains_key(pos_key(pos)) {
        (Seq::empty(), Some(VaultError::MissingCell(pos.0, pos.1)))
    } else {
        match visit_spec(l.grid[pos_key(pos)], weight, oper, ops) {
            Err(e) => (Seq::empty(), Some(e)),
            Ok((w, o, t)) => {
                let here: Seq<ReportView> = if w == l.end_weight {
                    seq![ReportView { dirs, ops: t, weight: w, at_end: l.end == pos }]
                } else {
                    Seq::empty()
                };
                if l.end == pos {
                    (here, None)
                } else {
                    then_spec((here, None), explore_spec(l, pos, w, o, dirs, t))
                }
            },
        }
    }
}

/// The moves out of room `pos`, in the order west, east, north, south: never
/// west or east beyond the ends' columns, never north or south beyond their
/// rows, never back onto the orb's room.
pub open spec fn explore_spec(
    l: Layout,
    pos: (u16, u16),
    w: u16,
    o: char,
    dirs: Seq<char>,
    t: Seq<(char, u16)>,
) -> (Seq<ReportView>, Option<VaultError>)
    decreases 13 - dirs.len(), 0nat,
{
    if dirs.len() > MAX_STEPS {
        nothing()
    } else {
        let i = pos.0;
        let j = pos.1;
        let west = if i > l.start.0 && (i - 1 != l.start.0 || j != l.start.1) {
            go_spec(l, ((i - 1) as u16, j), w, o, dirs.push('W'), t)
        } else {
            nothing()
        };
        let east = if i < l.end.0 {
            go_spec(l, ((i + 1) as u16, j), w, o, dirs.push('E'), t)
        } else {
            nothing()
        };
        let north = if j > l.end.1 {
            go_spec(l, (i, (j - 1) as u16), w, o, dirs.push('N'), t)
        } else {
            nothing()
        };
        let south = if j < l.start.1 && (i != l.start.0 || j + 1 != l.start.1) {
            go_spec(l, (i, (j + 1) as u16), w, o, dirs.push('S'), t)
        } else {
            nothing()
        };
        then_spec(west, then_spec(east, then_spec(north, south)))
    }
}

/// The search's error as a `Result`.
pub open spec fn as_result(e: Option<VaultError>) -> Result<(), VaultError> {
    match e {
        Some(e) => Err(e),
        None => Ok(()),
    }
}

/// A field that holds a `|` is a wall, which the reading skips.
pub open spec fn has_bar(w: Seq<char>) -> bool {
    index_of(w, '|') < w.len()
}

/// The words of a line that are no walls.
pub open spec fn plain_fields(ws: Seq<Seq<char>>) -> Seq<Seq<char>>
    decreases ws.len(),
{
    if ws.len() == 0 {
        Seq::empty()
    } else {
        let r = plain_fields(ws.drop_last());
        if has_bar(ws.last()) {
            r
        } else {
            r.push(ws.last())
        }
    }
}

/// The name of the orb's room.
pub open spec fn orb_name() -> Seq<char> {
    seq!['o', 'r', 'b']
}

/// The name of the room to the right of the vault's door.
pub open spec fn vault_name() -> Seq<char> {
    seq!['v', 'a', 'u', 'l', 't']
}

/// What the field `f` in column `i` of row `j` does to the layout, with the
/// weights that are logged on the way: `name=weight` is a numbered room with
/// that weight (logged), the orb's room for `orb`, and for `vault` the room to
/// its left becomes the door wanting that weight; a number is a numbered room;
/// anything else is an operator room, its first character the operator.
pub open spec fn field_spec(l: Layout, f: Seq<char>, i: int, j: u16) -> (Layout, Seq<u16>, Option<VaultError>) {
    if i > 0xffff {
        (l, Seq::empty(), Some(VaultError::FieldOutOfRange))
    } else {
        let pos = (i as u16, j);
        let p = index_of(f, '=') as int;
        if p < f.len() {
            match parse_u16_spec(f.skip(p + 1 as int)) {
                None => (l, Seq::empty(), Some(VaultError::BadWeight)),
                Some(w) => {
                    let g = l.grid.insert(pos_key(pos), Cell::Num(w));
                    let name = f.take(p as int);
                    if name == orb_name() {
                        (Layout { grid: g, start: pos, ..l }, seq![w], None)
                    } else if name == vault_name() {
                        if i == 0 {
                            (Layout { grid: g, ..l }, seq![w], Some(VaultError::VaultAtEdge))
                        } else {
                            (Layout { grid: g, end: ((i - 1) as u16, j), end_weight: w, ..l }, seq![w], None)
                        }
                    } else {
                        (Layout { grid: g, ..l }, seq![w], Some(VaultError::UnknownName))
                    }
                },
            }
        } else {
            let cell = match parse_u16_spec(f) {
                Some(u) => Cell::Num(u),
                None => Cell::Oper(f[0]),
            };
            (Layout { grid: l.grid.insert(pos_key(pos), cell), ..l }, Seq::empty(), None)
        }
    }
}

/// The first `n` fields of a row read in turn; the first error stops the reading.
pub open spec fn fields_spec(l: Layout, fs: Seq<Seq<char>>, j: u16, n: nat) -> (Layout, Seq<u16>, Option<VaultError>)
    decreases n,
{
    if n == 0 {
        (l, Seq::empty(), None)
    } else {
        let a = fields_spec(l, fs, j, (n - 1) as nat);
        if a.2 is Some {
            a
        } else {
            let b = field_spec(a.0, fs[n - 1], n - 1, j);
            (b.0, a.1 + b.1, b.2)
        }
    }
}

/// What reading the line `line` as row `j` does to the layout, and the
/// weights logged on the way.
pub open spec fn line_spec(l: Layout, line: Seq<char>, j: int) -> (Layout, Seq<u16>, Option<VaultError>) {
    if j > 0xffff {
        (l, Seq::empty(), Some(VaultError::LineOutOfRange))
    } else {
        let fs = plain_fields(split_ws_spec(line));
        fields_spec(l, fs, j as u16, fs.len())
    }
}

/// The answer of the whole search: the reports, and the orb's weight unless
/// an error stopped it.
pub open spec fn solve_spec(l: Layout) -> (Seq<ReportView>, Result<u16, VaultError>) {
    if !l.grid.contains_key(pos_key(l.start)) {
        (Seq::empty(), Err(VaultError::MissingCell(l.start.0, l.start.1)))
    } else {
        match l.grid[pos_key(l.start)] {
            Cell::Oper(_) => (Seq::empty(), Err(VaultError::StartNotNumber)),
            Cell::Num(w) => {
                let g = go_spec(l, l.start, w, '$', Seq::empty(), Seq::empty());
                (g.0, match g.1 {
                    Some(e) => Err(e),
                    None => Ok(w),
                })
            },
        }
    }
}

/// The weight a start weight `w0` becomes by the operations `ops` applied in
/// order, each modulo 2^16: `-` takes the number away from the weight, `+`
/// adds it, `*` multiplies by it.
pub open spec fn apply_ops(w0: int, ops: Seq<(char, u16)>) -> int
    decreases ops.len(),
{
    if ops.len() == 0 {
        w0
    } else {
        let w = apply_ops(w0, ops.drop_last());
        let o = ops.last().0;
        let c = ops.last().1 as int;
        if o == '-' {
            (w - c) % 0x10000
        } else if o == '+' {
            (w + c) % 0x10000
        } else {
            (w * c) % 0x10000
        }
    }
}

/// Entering a room: a number room with the pending operator `-` leaves the
/// weight minus the number (so the new weight plus the number gives the old
/// one back), with `+` the weight plus the number, with `*` their product, all
/// modulo 2^16, and records the operation; with `$` it leaves the weight as it
/// is; any other pending operator is an error. An operator room only becomes
/// the pending operator.
pub proof fn law_visit(cell: Cell, weight: u16, oper: char, ops: Seq<(char, u16)>)
    ensures
        cell matches Cell::Oper(o) ==> visit_spec(cell, weight, oper, ops) == Ok::<(u16, char, Seq<(char, u16)>), VaultError>((weight, o, ops)),
        cell matches Cell::Num(c) ==> match visit_spec(cell, weight, oper, ops) {
            Ok((w, o, t)) => {
                &&& o == '@'
                &&& (oper == '-' ==> (w + c) % 0x10000 == weight && t == ops.push(('-', c)))
                &&& (oper == '+' ==> w == (weight + c) % 0x10000 && t == ops.push(('+', c)))
                &&& (oper == '*' ==> w == (weight * c) % 0x10000 && t == ops.push(('*', c)))
                &&& (oper == '$' ==> w == weight && t == ops)
                &&& (oper == '-' || oper == '+' || oper == '*' || oper == '$')
            },
            Err(e) => e == VaultError::UnknownOperator(oper) && oper != '-' && oper != '+' && oper != '*'
                && oper != '$',
        },
{
}

/// Every report of a search keeps to its promise: its weight is the door's
/// weight, it is the start weight `w0` with the report's operations applied
/// in order, and its path has at most `MAX_STEPS` moves.
pub open spec fn reports_ok(l: Layout, w0: int, rs: Seq<ReportView>) -> bool {
    forall|i: int|
        0 <= i < rs.len() ==> {
            &&& (#[trigger] rs[i]).weight == l.end_weight
            &&& rs[i].weight == apply_ops(w0, rs[i].ops)
            &&& rs[i].dirs.len() <= MAX_STEPS
        }
}

proof fn lemma_then_ok(
    l: Layout,
    w0: int,
    a: (Seq<ReportView>, Option<VaultError>),
    b: (Seq<ReportView>, Option<VaultError>),
)
    requires
        reports_ok(l, w0, a.0),
        reports_ok(l, w0, b.0),
    ensures
        reports_ok(l, w0, then_spec(a, b).0),
{
    if a.1 is None {
        let c = a.0 + b.0;
        assert forall|i: int| 0 <= i < c.len() implies {
            &&& (#[trigger] c[i]).weight == l.end_weight
            &&& c[i].weight == apply_ops(w0, c[i].ops)
            &&& c[i].dirs.len() <= MAX_STEPS
        } by {
            if i >= a.0.len() {
                assert(c[i] == b.0[i - a.0.len()]);
            }
        }
    }
}

/// The search from a room keeps every report's promise, when the weight so
/// far is the start weight with the operations so far applied.
pub proof fn law_go_reports(
    l: Layout,
    w0: int,
    pos: (u16, u16),
    weight: u16,
    oper: char,
    dirs: Seq<char>,
    ops: Seq<(char, u16)>,
)
    requires
        weight == apply_ops(w0, ops),
    ensures
        reports_ok(l, w0, go_spec(l, pos, weight, oper, dirs, ops).0),
    decreases 13 - dirs.len(), 1nat,
{
    if dirs.len() <= MAX_STEPS && l.grid.contains_key(pos_key(pos)) {
        let cell = l.grid[pos_key(pos)];
        match visit_spec(cell, weight, oper, ops) {
            Err(e) => {},
            Ok((w, o, t)) => {
                if let Cell::Num(c) = cell {
                    if oper != '$' {
                        assert(t.drop_last() =~= ops);
                        assert((weight + 0x10000 - c) % 0x10000 == (weight - c) % 0x10000);
                    }
                }
                assert(w == apply_ops(w0, t));
                let here: Seq<ReportView> = if w == l.end_weight {
                    seq![ReportView { dirs, ops: t, weight: w, at_end: l.end == pos }]
                } else {
                    Seq::empty()
                };
                assert(reports_ok(l, w0, here));
                if l.end != pos {
                    law_explore_reports(l, w0, pos, w, o, dirs, t);
                    lemma_then_ok(l, w0, (here, None), explore_spec(l, pos, w, o, dirs, t));
                }
            },
        }
    }
}

/// The moves out of a room keep every report's promise.
pub proof fn law_explore_reports(
    l: Layout,
    w0: int,
    pos: (u16, u16),
    w: u16,
    o: char,
    dirs: Seq<char>,
    t: Seq<(char, u16)>,
)
    requires
        w == apply_ops(w0, t),
    ensures
        reports_ok(l, w0, explore_spec(l, pos, w, o, dirs, t).0),
    decreases 13 - dirs.len(), 0nat,
{
    if dirs.len() <= MAX_STEPS {
        let i = pos.0;
        let j = pos.1;
        law_go_reports(l, w0, ((i - 1) as u16, j), w, o, dirs.push('W'), t);
        law_go_reports(l, w0, ((i + 1) as u16, j), w, o, dirs.push('E'), t);
        law_go_reports(l, w0, (i, (j - 1) as u16), w, o, dirs.push('N'), t);
        law_go_reports(l, w0, (i, (j + 1) as u16), w, o, dirs.push('S'), t);
        let west = if i > l.start.0 && (i - 1 != l.start.0 || j != l.start.1) {
            go_spec(l, ((i - 1) as u16, j), w, o, dirs.push('W'), t)
        } else {
            nothing()
        };
        let east = if i < l.end.0 {
            go_spec(l, ((i + 1) as u16, j), w, o, dirs.push('E'), t)
        } else {
            nothing()
        };
        let north = if j > l.end.1 {
            go_spec(l, (i, (j - 1) as u16), w, o, dirs.push('N'), t)
        } else {
            nothing()
        };
        let south = if j < l.start.1 && (i != l.start.0 || j + 1 != l.start.1) {
            go_spec(l, (i, (j + 1) as u16), w, o, dirs.push('S'), t)
        } else {
            nothing()
        };
        lemma_then_ok(l, w0, north, south);
        lemma_then_ok(l, w0, east, then_spec(north, south));
        lemma_then_ok(l, w0, west, then_spec(east, then_spec(north, south)));
    }
}

/// Every report of the whole search reaches the door's weight from the orb's
/// weight by its operations, in at most `MAX_STEPS` moves.
pub proof fn law_solve_reports(l: Layout)
    ensures
        l.grid.contains_key(pos_key(l.start)) ==> (l.grid[pos_key(l.start)] matches Cell::Num(w0)
            ==> reports_ok(l, w0 as int, solve_spec(l).0)),
{
    if l.grid.contains_key(pos_key(l.start)) {
        if let Cell::Num(w0) = l.grid[pos_key(l.start)] {
            law_go_reports(l, w0 as int, l.start, w0, '$', Seq::empty(), Seq::empty());
        }
    }
}

/// The room reached from `p` by the moves `dirs`: `W` and `E` go one column
/// left and right, `N` and `S` one row up and down.
pub open spec fn walk(p: (int, int), dirs: Seq<char>) -> (int, int)
    decreases dirs.len(),
{
    if dirs.len() == 0 {
        p
    } else {
        let q = walk(p, dirs.drop_last());
        let d = dirs.last();
        if d == 'W' {
            (q.0 - 1, q.1)
        } else if d == 'E' {
            (q.0 + 1, q.1)
        } else if d == 'N' {
            (q.0, q.1 - 1)
        } else {
            (q.0, q.1 + 1)
        }
    }
}

/// The orb's room is at the lower left and the door at the upper right.
pub open spec fn corners(l: Layout) -> bool {
    l.start.0 <= l.end.0 && l.end.1 <= l.start.1
}

/// Where a report's path ends: from the orb's room, by its moves, it stays in
/// the rectangle between the orb's room and the door, it ends on the door
/// exactly when the report says so, and it is never back on the orb's room.
pub open spec fn paths_ok(l: Layout, rs: Seq<ReportView>) -> bool {
    forall|i: int|
        0 <= i < rs.len() ==> {
            let e = walk((l.start.0 as int, l.start.1 as int), (#[trigger] rs[i]).dirs);
            &&& l.start.0 <= e.0 <= l.end.0
            &&& l.end.1 <= e.1 <= l.start.1
            &&& (rs[i].at_end <==> e == (l.end.0 as int, l.end.1 as int))
            &&& (rs[i].dirs.len() > 0 ==> e != (l.start.0 as int, l.start.1 as int))
        }
}

proof fn lemma_then_paths(
    l: Layout,
    a: (Seq<ReportView>, Option<VaultError>),
    b: (Seq<ReportView>, Option<VaultError>),
)
    requires
        paths_ok(l, a.0),
        paths_ok(l, b.0),
    ensures
        paths_ok(l, then_spec(a, b).0),
{
    if a.1 is None {
        let c = a.0 + b.0;
        assert forall|i: int| 0 <= i < c.len() implies ({
            let e = walk((l.start.0 as int, l.start.1 as int), (#[trigger] c[i]).dirs);
            &&& l.start.0 <= e.0 <= l.end.0
            &&& l.end.1 <= e.1 <= l.start.1
            &&& (c[i].at_end <==> e == (l.end.0 as int, l.end.1 as int))
            &&& (c[i].dirs.len() > 0 ==> e != (l.start.0 as int, l.start.1 as int))
        }) by {
            if i >= a.0.len() {
                assert(c[i] == b.0[i - a.0.len()]);
            }
        }
    }
}

/// The search from a room reached by the moves `dirs` keeps every report's
/// path in the rectangle, as `paths_ok` says.
pub proof fn law_go_paths(
    l: Layout,
    pos: (u16, u16),
    weight: u16,
    oper: char,
    dirs: Seq<char>,
    ops: Seq<(char, u16)>,
)
    requires
        corners(l),
        walk((l.start.0 as int, l.start.1 as int), dirs) == (pos.0 as int, pos.1 as int),
        l.start.0 <= pos.0 <= l.end.0,
        l.end.1 <= pos.1 <= l.start.1,
        dirs.len() > 0 ==> pos != l.start,
    ensures
        paths_ok(l, go_spec(l, pos, weight, oper, dirs, ops).0),
    decreases 13 - dirs.len(), 1nat,
{
    if dirs.len() <= MAX_STEPS && l.grid.contains_key(pos_key(pos)) {
        match visit_spec(l.grid[pos_key(pos)], weight, oper, ops) {
            Err(e) => {},
            Ok((w, o, t)) => {
                let here: Seq<ReportView> = if w == l.end_weight {
                    seq![ReportView { dirs, ops: t, weight: w, at_end: l.end == pos }]
                } else {
                    Seq::empty()
                };
                assert(paths_ok(l, here));
                if l.end != pos {
                    law_explore_paths(l, pos, w, o, dirs, t);
                    lemma_then_paths(l, (here, None), explore_spec(l, pos, w, o, dirs, t));
                }
            },
        }
    }
}

/// The moves out of a room keep every report's path in the rectangle.
pub proof fn law_explore_paths(
    l: Layout,
    pos: (u16, u16),
    w: u16,
    o: char,
    dirs: Seq<char>,
    t: Seq<(char, u16)>,
)
    requires
        corners(l),
        walk((l.start.0 as int, l.start.1 as int), dirs) == (pos.0 as int, pos.1 as int),
        l.start.0 <= pos.0 <= l.end.0,
        l.end.1 <= pos.1 <= l.start.1,
        dirs.len() > 0 ==> pos != l.start,
    ensures
        paths_ok(l, explore_spec(l, pos, w, o, dirs, t).0),
    decreases 13 - dirs.len(), 0nat,
{
    if dirs.len() <= MAX_STEPS {
        let i = pos.0;
        let j = pos.1;
        let sp = (l.start.0 as int, l.start.1 as int);
        let west = if i > l.start.0 && (i - 1 != l.start.0 || j != l.start.1) {
            assert(walk(sp, dirs.push('W')) == (i - 1, j as int)) by {
                assert(dirs.push('W').drop_last() =~= dirs);
            }
            law_go_paths(l, ((i - 1) as u16, j), w, o, dirs.push('W'), t);
            go_spec(l, ((i - 1) as u16, j), w, o, dirs.push('W'), t)
        } else {
            nothing()
        };
        let east = if i < l.end.0 {
            assert(walk(sp, dirs.push('E')) == (i + 1, j as int)) by {
                assert(dirs.push('E').drop_last() =~= dirs);
            }
            law_go_paths(l, ((i + 1) as u16, j), w, o, dirs.push('E'), t);
            go_spec(l, ((i + 1) as u16, j), w, o, dirs.push('E'), t)
        } else {
            nothing()
        };
        let north = if j > l.end.1 {
            assert(walk(sp, dirs.push('N')) == (i as int, j - 1)) by {
                assert(dirs.push('N').drop_last() =~= dirs);
            }
            law_go_paths(l, (i, (j - 1) as u16), w, o, dirs.push('N'), t);
            go_spec(l, (i, (j - 1) as u16), w, o, dirs.push('N'), t)
        } else {
            nothing()
        };
        let south = if j < l.start.1 && (i != l.start.0 || j + 1 != l.start.1) {
            assert(walk(sp, dirs.push('S')) == (i as int, j + 1)) by {
                assert(dirs.push('S').drop_last() =~= dirs);
            }
            law_go_paths(l, (i, (j + 1) as u16), w, o, dirs.push('S'), t);
            go_spec(l, (i, (j + 1) as u16), w, o, dirs.push('S'), t)
        } else {
            nothing()
        };
        assert(paths_ok(l, nothing().0));
        lemma_then_paths(l, north, south);
        lemma_then_paths(l, east, then_spec(north, south));
        lemma_then_paths(l, west, then_spec(east, then_spec(north, south)));
    }
}

/// Every report of the whole search follows a path from the orb's room that
/// stays in the rectangle up to the door, never returns to the orb's room,
/// and ends on the door exactly when the report says so.
pub proof fn law_solve_paths(l: Layout)
    requires
        corners(l),
    ensures
        paths_ok(l, solve_spec(l).0),
{
    if l.grid.contains_key(pos_key(l.start)) {
        if let Cell::Num(w0) = l.grid[pos_key(l.start)] {
            law_go_paths(l, l.start, w0, '$', Seq::empty(), Seq::empty());
        }
    }
}

/// The field `orb=w` in column `i` of row `j` is the orb's room, numbered `w`.
pub proof fn law_field_orb(l: Layout, d: Seq<char>, i: int, j: u16, w: u16)
    requires
        0 <= i <= 0xffff,
        parse_u16_spec(d) == Some(w),
    ensures
        field_spec(l, seq!['o', 'r', 'b', '='] + d, i, j) == (
            Layout { grid: l.grid.insert(pos_key((i as u16, j)), Cell::Num(w)), start: (i as u16, j), ..l },
            seq![w],
            None::<VaultError>,
        ),
{
    let f = seq!['o', 'r', 'b', '='] + d;
    lemma_index_of_is(f, '=', 3);
    assert(f.skip(4) =~= d);
    assert(f.take(3) =~= orb_name());
}

/// The field `vault=w` in column `i >= 1` of row `j` makes the room to its
/// left, column `i - 1`, the door, wanting the weight `w`; the field itself is
/// a room numbered `w`.
pub proof fn law_field_vault(l: Layout, d: Seq<char>, i: int, j: u16, w: u16)
    requires
        1 <= i <= 0xffff,
        parse_u16_spec(d) == Some(w),
    ensures
        field_spec(l, seq!['v', 'a', 'u', 'l', 't', '='] + d, i, j) == (
            Layout {
                grid: l.grid.insert(pos_key((i as u16, j)), Cell::Num(w)),
                end: ((i - 1) as u16, j),
                end_weight: w,
                ..l
            },
            seq![w],
            None::<VaultError>,
        ),
{
    let f = seq!['v', 'a', 'u', 'l', 't', '='] + d;
    lemma_index_of_is(f, '=', 5);
    assert(f.skip(6) =~= d);
    assert(f.take(5) =~= vault_name());
}

/// A field without `=` in column `i` of row `j` is a room: numbered when the
/// field is a number, else an operator room of the field's first character.
pub proof fn law_field_room(l: Layout, f: Seq<char>, i: int, j: u16)
    requires
        0 <= i <= 0xffff,
        f.len() > 0,
        forall|k: int| 0 <= k < f.len() ==> f[k] != '=',
    ensures
        field_spec(l, f, i, j) == (
            Layout {
                grid: l.grid.insert(
                    pos_key((i as u16, j)),
                    match parse_u16_spec(f) {
                        Some(u) => Cell::Num(u),
                        None => Cell::Oper(f[0]),
                    },
                ),
                ..l
            },
            Seq::<u16>::empty(),
            None::<VaultError>,
        ),
{
    lemma_index_of_is(f, '=', f.len() as int);
}

/// Whether two character strings are equal.
fn same_chars(a: &[char], b: &[char]) -> (r: bool)
    ensures
        r == (a@ == b@),
{
    if a.len() != b.len() {
        return false;
    }
    let mut i: usize = 0;
    while i < a.len()
        invariant
            a@.len() == b@.len(),
            i <= a@.len(),
            forall|k: int| 0 <= k < i ==> a@[k] == b@[k],
        decreases a@.len() - i,
    {
        if a[i] != b[i] {
            return false;
        }
        i += 1;
    }
    assert(a@ =~= b@);
    true
}

/// The characters of `s` from `from` to `to`.
fn sub_chars(s: &[char], from: usize, to: usize) -> (r: Vec<char>)
    requires
        from <= to <= s@.len(),
    ensures
        r@ == s@.subrange(from as int, to as int),
{
    let mut r: Vec<char> = Vec::new();
    let mut k: usize = from;
    while k < to
        invariant
            from <= k <= to <= s@.len(),
            r@ == s@.subrange(from as int, k as int),
        decreases to - k,
    {
        r.push(s[k]);
        assert(r@ =~= s@.subrange(from as int, k + 1));
        k += 1;
    }
    r
}

/// Once the reading of a row has stopped, reading more fields changes nothing.
proof fn lemma_fields_stop(l: Layout, fs: Seq<Seq<char>>, j: u16, n: nat, m: nat)
    requires
        n <= m,
        fields_spec(l, fs, j, n).2 is Some,
    ensures
        fields_spec(l, fs, j, m) == fields_spec(l, fs, j, n),
    decreases m - n,
{
    if n < m {
        lemma_fields_stop(l, fs, j, n, (m - 1) as nat);
    }
}

/// The fields kept are words of the line.
proof fn lemma_plain_fields_sub(ws: Seq<Seq<char>>)
    requires
        forall|q: int| 0 <= q < ws.len() ==> #[trigger] ws[q].len() > 0,
    ensures
        forall|q: int| 0 <= q < plain_fields(ws).len() ==> #[trigger] plain_fields(ws)[q].len() > 0,
    decreases ws.len(),
{
    if ws.len() > 0 {
        let t = ws.drop_last();
        assert forall|q: int| 0 <= q < t.len() implies #[trigger] t[q].len() > 0 by {
            assert(t[q] == ws[q]);
        }
        lemma_plain_fields_sub(t);
        let r = plain_fields(t);
        assert(ws.last().len() > 0);
        if !has_bar(ws.last()) {
            assert forall|q: int| 0 <= q < r.push(ws.last()).len() implies #[trigger] r.push(ws.last())[q].len() > 0 by {
                if q < r.len() {
                    assert(r.push(ws.last())[q] == r[q]);
                }
            }
        }
    }
}

/// A copy of a vector of plain values.
fn copy_vec<T: Copy>(v: &Vec<T>) -> (r: Vec<T>)
    ensures
        r@ == v@,
{
    let mut r: Vec<T> = Vec::new();
    let mut i: usize = 0;
    while i < v.len()
        invariant
            i <= v@.len(),
            r@ == v@.take(i as int),
        decreases v@.len() - i,
    {
        r.push(v[i]);
        assert(r@ =~= v@.take(i + 1));
        i += 1;
    }
    assert(v@.take(i as int) =~= v@);
    r
}

/// The vault puzzle: a map of rooms, the orb's room and weight, the vault's
/// door and the weight it wants, and the search's current path.
pub struct Vault {
    grid: HashMap<u32, Cell>,
    pub start: (u16, u16),
    pub end: (u16, u16),
    pub end_weight: u16,
    dir: Vec<char>,
    txt: Vec<(char, u16)>,
}

impl Vault {
    /// The map and the two ends.
    pub closed spec fn layout(&self) -> Layout {
        Layout { grid: self.grid@, start: self.start, end: self.end, end_weight: self.end_weight }
    }

    /// The moves of the path the search is on.
    pub closed spec fn path(&self) -> Seq<char> {
        self.dir@
    }

    /// The operations applied along the path the search is on.
    pub closed spec fn applied(&self) -> Seq<(char, u16)> {
        self.txt@
    }

    /// No search under way.
    pub open spec fn idle(&self) -> bool {
        self.path().len() == 0 && self.applied().len() == 0
    }

    /// An empty map with both ends at `(0, 0)` and door weight 0.
    pub fn new() -> (v: Vault)
        ensures
            v.layout() == (Layout { grid: Map::empty(), start: (0, 0), end: (0, 0), end_weight: 0 }),
            v.idle(),
    {
        Vault {
            grid: HashMap::new(),
            start: (0, 0),
            end: (0, 0),
            end_weight: 0,
            dir: Vec::new(),
            txt: Vec::new(),
        }
    }

    /// The room at `pos`, if the map has it.
    pub fn room(&self, pos: (u16, u16)) -> (r: Option<Cell>)
        ensures
            r == (if self.layout().grid.contains_key(pos_key(pos)) {
                Some(self.layout().grid[pos_key(pos)])
            } else {
                None
            }),
    {
        match self.grid.get(&key_of(pos)) {
            Some(c) => Some(*c),
            None => None,
        }
    }

    /// Searches on from the room `pos` with the weight `weight` and the
    /// pending operator `oper`, appending to `out` a report for every path on
    /// which the weight equals the door's, as `go_spec` says.
    pub fn go(&mut self, pos: (u16, u16), weight: u16, oper: char, out: &mut Vec<Report>) -> (r: Result<(), VaultError>)
        requires
            old(self).path().len() <= MAX_STEPS + 1,
        ensures
            final(self).layout() == old(self).layout(),
            final(self).path() == old(self).path(),
            final(self).applied() == old(self).applied(),
            ({
                let g = go_spec(old(self).layout(), pos, weight, oper, old(self).path(), old(self).applied());
                &&& reports_view(final(out)@) == reports_view(old(out)@) + g.0
                &&& r == as_result(g.1)
            }),
        decreases 13 - old(self).path().len(), 2nat,
    {
        let ghost out0 = reports_view(out@);
        if self.dir.len() > MAX_STEPS {
            assert(reports_view(out@) =~= out0 + Seq::<ReportView>::empty());
            return Ok(());
        }
        let old_txt_len = self.txt.len();
        let ghost t0 = self.txt@;
        let cell = match self.room(pos) {
            None => {
                assert(reports_view(out@) =~= out0 + Seq::<ReportView>::empty());
                return Err(VaultError::MissingCell(pos.0, pos.1));
            },
            Some(c) => c,
        };
        let mut weight = weight;
        let mut oper = oper;
        match cell {
            Cell::Num(c) => {
                if oper == '-' {
                    weight = ((weight as u32 + 0x10000 - c as u32) % 0x10000) as u16;
                } else if oper == '+' {
                    weight = ((weight as u32 + c as u32) % 0x10000) as u16;
                } else if oper == '*' {
                    assert(weight as u32 * c as u32 <= 0xffff * 0xffff) by (nonlinear_arith)
                        requires
                            weight <= 0xffff,
                            c <= 0xffff,
                    ;
                    weight = ((weight as u32 * c as u32) % 0x10000) as u16;
                } else if oper != '$' {
                    assert(reports_view(out@) =~= out0 + Seq::<ReportView>::empty());
                    return Err(VaultError::UnknownOperator(oper));
                }
                if oper != '$' {
                    self.txt.push((oper, c));
                }
                oper = '@';
            },
            Cell::Oper(o) => {
                oper = o;
            },
        }
        let at_end = self.end.0 == pos.0 && self.end.1 == pos.1;
        if weight == self.end_weight {
            let dirs = copy_vec(&self.dir);
            let ops = copy_vec(&self.txt);
            out.push(Report { dirs, ops, weight, at_end });
        }
        let ghost here = reports_view(out@).skip(out0.len() as int);
        assert(reports_view(out@) =~= out0 + here);
        let r = if !at_end {
            self.explore(pos, weight, oper, out)
        } else {
            Ok(())
        };
        self.txt.truncate(old_txt_len);
        assert(self.txt@ =~= t0);
        r
    }

    /// The moves out of the room `pos`, as `explore_spec` says.
    #[verifier::rlimit(50)]
    fn explore(&mut self, pos: (u16, u16), w: u16, o: char, out: &mut Vec<Report>) -> (r: Result<(), VaultError>)
        requires
            old(self).path().len() <= MAX_STEPS,
        ensures
            final(self).layout() == old(self).layout(),
            final(self).path() == old(self).path(),
            final(self).applied() == old(self).applied(),
            ({
                let g = explore_spec(old(self).layout(), pos, w, o, old(self).path(), old(self).applied());
                &&& reports_view(final(out)@) == reports_view(old(out)@) + g.0
                &&& r == as_result(g.1)
            }),
        decreases 13 - old(self).path().len(), 1nat,
    {
        let ghost l = self.layout();
        let ghost d0 = self.path();
        let ghost t0 = self.applied();
        let ghost out0 = reports_view(out@);
        let (i, j) = pos;
        let (start_i, start_j) = self.start;
        let (end_i, end_j) = self.end;
        let ghost west = if i > l.start.0 && (i - 1 != l.start.0 || j != l.start.1) {
            go_spec(l, ((i - 1) as u16, j), w, o, d0.push('W'), t0)
        } else {
            nothing()
        };
        let ghost east = if i < l.end.0 {
            go_spec(l, ((i + 1) as u16, j), w, o, d0.push('E'), t0)
        } else {
            nothing()
        };
        let ghost north = if j > l.end.1 {
            go_spec(l, (i, (j - 1) as u16), w, o, d0.push('N'), t0)
        } else {
            nothing()
        };
        let ghost south = if j < l.start.1 && (i != l.start.0 || j + 1 != l.start.1) {
            go_spec(l, (i, (j + 1) as u16), w, o, d0.push('S'), t0)
        } else {
            nothing()
        };
        if i > start_i && (i - 1 != start_i || j != start_j) {
            let r = self.branch((i - 1, j), 'W', w, o, out);
            if r.is_err() {
                return r;
            }
        }
        let ghost out1 = reports_view(out@);
        assert(out1 =~= out0 + west.0);
        if i < end_i {
            let r = self.branch((i + 1, j), 'E', w, o, out);
            if r.is_err() {
                assert(reports_view(out@) =~= out0 + (west.0 + east.0));
                return r;
            }
        }
        let ghost out2 = reports_view(out@);
        assert(out2 =~= out1 + east.0);
        if j > end_j {
            let r = self.branch((i, j - 1), 'N', w, o, out);
            if r.is_err() {
                assert(reports_view(out@) =~= out0 + (west.0 + (east.0 + north.0)));
                return r;
            }
        }
        let ghost out3 = reports_view(out@);
        assert(out3 =~= out2 + north.0);
        if j < start_j && (i != start_i || j + 1 != start_j) {
            let r = self.branch((i, j + 1), 'S', w, o, out);
            if r.is_err() {
                assert(reports_view(out@) =~= out0 + (west.0 + (east.0 + (north.0 + south.0))));
                return r;
            }
        }
        assert(reports_view(out@) =~= out0 + (west.0 + (east.0 + (north.0 + south.0))));
        Ok(())
    }

    /// One move `d` to the room `next`, searching on from there.
    fn branch(&mut self, next: (u16, u16), d: char, w: u16, o: char, out: &mut Vec<Report>) -> (r: Result<(), VaultError>)
        requires
            old(self).path().len() <= MAX_STEPS,
        ensures
            final(self).layout() == old(self).layout(),
            final(self).path() == old(self).path(),
            final(self).applied() == old(self).applied(),
            ({
                let g = go_spec(old(self).layout(), next, w, o, old(self).path().push(d), old(self).applied());
                &&& reports_view(final(out)@) == reports_view(old(out)@) + g.0
                &&& r == as_result(g.1)
            }),
        decreases 13 - old(self).path().len(), 0nat,
    {
        let ghost d0 = self.dir@;
        self.dir.push(d);
        let r = self.go(next, w, o, out);
        self.dir.pop();
        assert(self.dir@ =~= d0);
        r
    }

    /// Reads the field `f` in column `i` of row `j`, as `field_spec` says,
    /// appending the logged weights to `log`.
    fn add_field(&mut self, f: &[char], i: usize, j: u16, log: &mut Vec<u16>) -> (r: Result<(), VaultError>)
        requires
            f@.len() > 0,
        ensures
            ({
                let e = field_spec(old(self).layout(), f@, i as int, j);
                &&& final(self).layout() == e.0
                &&& final(log)@ == old(log)@ + e.1
                &&& r == as_result(e.2)
            }),
            final(self).path() == old(self).path(),
            final(self).applied() == old(self).applied(),
    {
        if i > 0xffff {
            assert(log@ =~= old(log)@ + Seq::<u16>::empty());
            return Err(VaultError::FieldOutOfRange);
        }
        let pos = (i as u16, j);
        match find(f, '=') {
            Some(p) => {
                assert(p < f.len());
                let wt = sub_chars(f, p + 1, f.len());
                assert(wt@ =~= f@.skip(p + 1));
                match parse_u16(wt.as_slice()) {
                    None => {
                        assert(log@ =~= old(log)@ + Seq::<u16>::empty());
                        return Err(VaultError::BadWeight);
                    },
                    Some(w) => {
                        log.push(w);
                        assert(log@ =~= old(log)@ + seq![w]);
                        self.grid.insert(key_of(pos), Cell::Num(w));
                        let name = sub_chars(f, 0, p);
                        assert(name@ =~= f@.take(p as int));
                        let orb: [char; 3] = ['o', 'r', 'b'];
                        let vault: [char; 5] = ['v', 'a', 'u', 'l', 't'];
                        assert(orb@ =~= orb_name());
                        assert(vault@ =~= vault_name());
                        if same_chars(name.as_slice(), &orb) {
                            self.start = pos;
                        } else if same_chars(name.as_slice(), &vault) {
                            if i == 0 {
                                return Err(VaultError::VaultAtEdge);
                            }
                            self.end = (i as u16 - 1, j);
                            self.end_weight = w;
                        } else {
                            return Err(VaultError::UnknownName);
                        }
                        Ok(())
                    },
                }
            },
            None => {
                let cell = match parse_u16(f) {
                    Some(u) => Cell::Num(u),
                    None => Cell::Oper(f[0]),
                };
                self.grid.insert(key_of(pos), cell);
                assert(log@ =~= old(log)@ + Seq::<u16>::empty());
                Ok(())
            },
        }
    }

    /// Reads the line `line` as row `j` of the map, as `line_spec` says,
    /// appending the logged weights to `log`.
    pub fn add_line(&mut self, j: usize, line: &[char], log: &mut Vec<u16>) -> (r: Result<(), VaultError>)
        ensures
            ({
                let e = line_spec(old(self).layout(), line@, j as int);
                &&& final(self).layout() == e.0
                &&& final(log)@ == old(log)@ + e.1
                &&& r == as_result(e.2)
            }),
            final(self).path() == old(self).path(),
            final(self).applied() == old(self).applied(),
    {
        if j > 0xffff {
            assert(log@ =~= old(log)@ + Seq::<u16>::empty());
            return Err(VaultError::LineOutOfRange);
        }
        let row = j as u16;
        assert(row == j);
        assert((j as int) as u16 == row);
        let words = split_whitespace(line);
        let ghost ws = split_ws_spec(line@);
        let mut fields: Vec<Vec<char>> = Vec::new();
        let mut k: usize = 0;
        assert(ws.take(0) =~= Seq::<Seq<char>>::empty());
        while k < words.len()
            invariant
                ws == split_ws_spec(line@),
                words@.len() == ws.len(),
                forall|q: int| 0 <= q < words@.len() ==> #[trigger] words@[q]@ == ws[q],
                k <= words@.len(),
                fields@.len() == plain_fields(ws.take(k as int)).len(),
                forall|q: int| 0 <= q < fields@.len() ==> #[trigger] fields@[q]@ == plain_fields(ws.take(k as int))[q],
            decreases words@.len() - k,
        {
            let ghost t = ws.take(k + 1);
            assert(t.drop_last() =~= ws.take(k as int));
            assert(t.last() == words@[k as int]@);
            if find(words[k].as_slice(), '|').is_none() {
                let w = sub_chars(words[k].as_slice(), 0, words[k].len());
                assert(w@ =~= words@[k as int]@);
                fields.push(w);
            }
            k += 1;
        }
        assert(ws.take(k as int) =~= ws);
        let ghost fs = plain_fields(ws);
        proof {
            lemma_split_ws_nonempty(line@);
            lemma_plain_fields_sub(ws);
        }
        let ghost l0 = self.layout();
        let ghost log0 = log@;
        let mut i: usize = 0;
        while i < fields.len()
            invariant
                fs == plain_fields(split_ws_spec(line@)),
                j <= 0xffff,
                row == j,
                fields@.len() == fs.len(),
                forall|q: int| 0 <= q < fields@.len() ==> #[trigger] fields@[q]@ == fs[q],
                forall|q: int| 0 <= q < fs.len() ==> #[trigger] fs[q].len() > 0,
                i <= fields@.len(),
                l0 == old(self).layout(),
                log0 == old(log)@,
                fields_spec(l0, fs, row, i as nat).2 is None,
                self.layout() == fields_spec(l0, fs, row, i as nat).0,
                log@ == log0 + fields_spec(l0, fs, row, i as nat).1,
                self.path() == old(self).path(),
                self.applied() == old(self).applied(),
            decreases fields@.len() - i,
        {
            assert(fields@[i as int]@ == fs[i as int]);
            let r = self.add_field(fields[i].as_slice(), i, row, log);
            assert(log@ =~= log0 + fields_spec(l0, fs, row, (i + 1) as nat).1);
            assert(self.layout() == fields_spec(l0, fs, row, (i + 1) as nat).0);
            assert(r == as_result(fields_spec(l0, fs, row, (i + 1) as nat).2));
            if r.is_err() {
                proof {
                    lemma_fields_stop(l0, fs, row, (i + 1) as nat, fs.len());
                }
                let ghost e = line_spec(old(self).layout(), line@, j as int);
                assert(e == fields_spec(l0, fs, row, fs.len()));
                return r;
            }
            i += 1;
        }
        Ok(())
    }

    /// The whole search from the orb's room, as `solve_spec` says: the
    /// reports are appended to `out`; the orb's weight is returned.
    pub fn solve(&mut self, out: &mut Vec<Report>) -> (r: Result<u16, VaultError>)
        requires
            old(self).idle(),
        ensures
            final(self).layout() == old(self).layout(),
            final(self).idle(),
            reports_view(final(out)@) == reports_view(old(out)@) + solve_spec(old(self).layout()).0,
            r == solve_spec(old(self).layout()).1,
    {
        match self.room(self.start) {
            None => {
                assert(reports_view(out@) =~= reports_view(old(out)@) + Seq::<ReportView>::empty());
                Err(VaultError::MissingCell(self.start.0, self.start.1))
            },
            Some(Cell::Oper(_)) => {
                assert(reports_view(out@) =~= reports_view(old(out)@) + Seq::<ReportView>::empty());
                Err(VaultError::StartNotNumber)
            },
            Some(Cell::Num(w)) => {
                assert(self.path() =~= Seq::<char>::empty());
                assert(self.applied() =~= Seq::<(char, u16)>::empty());
                let start = self.start;
                match self.go(start, w, '$', out) {
                    Ok(()) => Ok(w),
                    Err(e) => Err(e),
                }
            },
        }
    }
}

} // verus!
