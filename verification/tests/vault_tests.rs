use lib::vault::{Cell, Report, Vault, VaultError};

fn chars(s: &str) -> Vec<char> {
    s.chars().collect()
}

fn read(lines: &[&str]) -> (Vault, Vec<u16>, Result<(), VaultError>) {
    let mut v = Vault::new();
    let mut log = Vec::new();
    for (j, line) in lines.iter().enumerate() {
        let r = v.add_line(j, &chars(line), &mut log);
        if r.is_err() {
            return (v, log, r);
        }
    }
    (v, log, Ok(()))
}

#[test]
fn reading_the_map() {
    let (v, log, r) = read(&["| * | 8 | vault=1", "orb=9 | + | 2"]);
    assert_eq!(r, Ok(()));
    assert_eq!(log, vec![1, 9]);
    assert_eq!(v.start, (0, 1));
    assert_eq!(v.end, (1, 0));
    assert_eq!(v.end_weight, 1);
    assert_eq!(v.room((0, 0)), Some(Cell::Oper('*')));
    assert_eq!(v.room((1, 0)), Some(Cell::Num(8)));
    assert_eq!(v.room((2, 0)), Some(Cell::Num(1)));
    assert_eq!(v.room((1, 1)), Some(Cell::Oper('+')));
}

#[test]
fn reading_errors() {
    assert_eq!(read(&["x=1"]).2, Err(VaultError::UnknownName));
    assert_eq!(read(&["orb=x"]).2, Err(VaultError::BadWeight));
    assert_eq!(read(&["vault=3"]).2, Err(VaultError::VaultAtEdge));
    let mut v = Vault::new();
    let mut log = Vec::new();
    assert_eq!(v.add_line(70000, &chars(""), &mut log), Err(VaultError::LineOutOfRange));
}

#[test]
fn searching_a_small_vault() {
    // row 0:  -  1      (door at (0, 0), vault to its right)
    // row 1:  4  *
    let (mut v, _, r) = read(&["- vault=1", "orb=4 *"]);
    assert_eq!(r, Ok(()));
    v.end = (1, 0);
    v.end_weight = 3;
    assert_eq!(v.start, (0, 1));
    // fix the door weight the path must reach: 4 * 1 = 4 through the door
    v.end_weight = 4;
    let mut out: Vec<Report> = Vec::new();
    assert_eq!(v.solve(&mut out), Ok(4));
    let found: Vec<(String, u16, bool)> = out
        .iter()
        .map(|r| (r.dirs.iter().collect::<String>(), r.weight, r.at_end))
        .collect();
    assert!(found.contains(&("EN".to_string(), 4, true)));
    for r in &out {
        assert_eq!(r.weight, 4);
        assert!(r.dirs.len() <= 13);
    }
    assert_eq!(out[0].dirs.len(), 0);
}

#[test]
fn unknown_operator_stops_the_search() {
    let (mut v, _, _) = read(&["3 vault=2", "orb=4 5"]);
    v.end = (1, 0);
    v.end_weight = 100;
    let mut out = Vec::new();
    assert_eq!(v.solve(&mut out), Err(VaultError::UnknownOperator('@')));
}

#[test]
fn missing_start_room() {
    let mut v = Vault::new();
    let mut out = Vec::new();
    assert_eq!(v.solve(&mut out), Err(VaultError::MissingCell(0, 0)));
}
