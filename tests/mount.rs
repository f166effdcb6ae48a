use catan_term::mount::{Mount, MountFinder};

#[test]
fn push_chain_round_trips_through_peek_and_next() {
    let f = MountFinder::new(0).push(1).push(2).push(3);
    assert_eq!(f.id(), 0x030201);
    assert_eq!(f.depth(), 3);
    assert_eq!(f.peek(), 1);
    let f = f.next();
    assert_eq!(f.peek(), 2);
    let f = f.next();
    assert_eq!(f.peek(), 3);
    let f = f.next();
    assert_eq!(f.peek(), 0);
    assert_eq!(f.depth(), 0);
}

#[test]
fn eight_levels_fill_the_identity() {
    let mut f = MountFinder::new(0);
    for i in 1..=8u8 {
        f = f.push(i * 30);
        assert_eq!(f.depth(), i as u32);
    }
    let mut g = f;
    for i in 1..=8u8 {
        assert_eq!(g.peek(), i * 30);
        g = g.next();
    }
}

#[test]
fn fork_mints_successive_children() {
    let mut root = Mount::default();
    let a = root.fork();
    let b = root.fork();
    assert_eq!(root.children, 2);
    assert_eq!(a.id, 1);
    assert_eq!(b.id, 2);
    let mut a = a;
    let a1 = a.fork();
    assert_eq!(a1.id, 1 + 256);
    assert_eq!(a1.children, 0);
}
