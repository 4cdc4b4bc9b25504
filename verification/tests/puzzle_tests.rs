use lib::ack::{confirms, MemAck};
use lib::mirror::mirror;
use lib::reorder::OrderedOutput;
use lib::ruins::solve_ruins;
use lib::teleport::{display_position, needs_patch, teleport_patches, PatchKind, SeekPos};
use lib::text::{parse_u16, split_whitespace, trim};

#[test]
fn ackermann_with_register_one_is_ackermann() {
    let mut a = MemAck::new();
    a.reset(1);
    assert_eq!(a.ack(0, 5), 6);
    assert_eq!(a.ack(1, 2), 4);
    assert_eq!(a.ack(2, 3), 9);
    assert_eq!(a.ack(3, 3), 61);
    // the memo gives the same answers again
    assert_eq!(a.ack(3, 3), 61);
}

#[test]
fn ackermann_wraps_and_uses_the_register() {
    let mut a = MemAck::new();
    a.reset(5);
    assert_eq!(a.ack(0, 0x7fff), 0);
    assert_eq!(a.ack(0, 0xffff), 0);
    // A(1, 0) = A(0, x) = x + 1
    assert_eq!(a.ack(1, 0), 6);
    a.reset(7);
    assert_eq!(a.ack(1, 0), 8);
    assert!(confirms(6));
    assert!(!confirms(7));
}

#[test]
fn mirror_reverses_and_swaps_p_and_q() {
    let s: Vec<char> = "pqbd xq".chars().collect();
    let r: String = mirror(&s).into_iter().collect();
    assert_eq!(r, "px dbpq");
    let back: Vec<char> = mirror(&mirror(&s));
    assert_eq!(back, s);
}

#[test]
fn results_come_out_in_order() {
    let mut o = OrderedOutput::new();
    assert_eq!(o.push(2, 20), vec![]);
    assert_eq!(o.push(1, 10), vec![]);
    assert_eq!(o.push(0, 0), vec![(0, 0), (1, 10), (2, 20)]);
    assert_eq!(o.push(4, 40), vec![]);
    assert_eq!(o.push(3, 30), vec![(3, 30), (4, 40)]);
}

#[test]
fn coins_have_one_solution() {
    // red, corroded, shiny, concave, blue
    let values = [2i64, 3, 5, 7, 9];
    let r = solve_ruins(&values);
    // blue + red * shiny^2 + concave^3 - corroded
    assert_eq!(r, vec![(4, 0, 2, 3, 1)]);
}

#[test]
fn coins_with_equal_values_are_not_reused() {
    let r = solve_ruins(&[1, 1, 1, 1, 1]);
    assert!(r.is_empty());
    let r = solve_ruins(&[9, 2, 5, 7, 3, 4]);
    for t in &r {
        let v = [9i64, 2, 5, 7, 3, 4];
        assert_eq!(v[t.0] + v[t.1] * v[t.2] * v[t.2] + v[t.3] * v[t.3] * v[t.3] - v[t.4], 399);
    }
    assert!(r.windows(2).all(|w| w[0] < w[1]));
    assert!(r.contains(&(0, 1, 2, 3, 4)));
}

#[test]
fn teleporter_patches() {
    let ps = teleport_patches();
    assert_eq!(ps.len(), 3);
    assert_eq!(ps[0].kind, PatchKind::SixForFour);
    assert_eq!(ps[0].position, SeekPos::Start(10970));
    assert_eq!(display_position(ps[0].position), 5485);
    assert_eq!(ps[1].expected, vec![0x11, 0, 0x8b, 0x17]);
    assert_eq!(ps[1].replacement, vec![21, 0, 21, 0]);
    assert_eq!(ps[2].position, SeekPos::Start(65550));
    assert_eq!(ps[2].replacement, 25734u16.to_le_bytes().to_vec());
    assert!(needs_patch(&ps[0], &[4, 0]));
    assert!(!needs_patch(&ps[0], &[6, 0]));
    assert!(!needs_patch(&ps[1], &[0x11, 0]));
    assert_eq!(display_position(SeekPos::Current(8)), 0);
}

#[test]
fn text_helpers_follow_std() {
    let s: Vec<char> = "\u{a0} a\tb  c \n".chars().collect();
    let t: String = trim(&s).into_iter().collect();
    assert_eq!(t, "\u{a0} a\tb  c \n".trim());
    let words: Vec<String> = split_whitespace(&s).into_iter().map(|w| w.into_iter().collect()).collect();
    let expected: Vec<&str> = "\u{a0} a\tb  c \n".split_whitespace().collect();
    assert_eq!(words, expected);
    for text in ["5", "+5", "-5", "", "+", "65535", "65536", "0012", "1a", "99999999999"] {
        let cs: Vec<char> = text.chars().collect();
        assert_eq!(parse_u16(&cs), text.parse::<u16>().ok(), "{}", text);
    }
}
