use svdag::Children;

#[test]
fn new_wraps_raw_bits() {
    let c = Children::new(0b1011_0010);
    assert_eq!(c.child_bits, 0b1011_0010);
}

#[test]
fn get_reads_single_bits() {
    let c = Children::new(0b1011_0010);
    assert!(!c.get(0));
    assert!(c.get(1));
    assert!(!c.get(2));
    assert!(!c.get(3));
    assert!(c.get(4));
    assert!(c.get(5));
    assert!(!c.get(6));
    assert!(c.get(7));
}

#[test]
fn get_n_is_prefix_popcount() {
    let c = Children::new(0b1011_0010);
    assert_eq!(c.get_n(0), 0);
    assert_eq!(c.get_n(1), 0);
    assert_eq!(c.get_n(2), 1);
    assert_eq!(c.get_n(4), 1);
    assert_eq!(c.get_n(5), 2);
    assert_eq!(c.get_n(6), 3);
    assert_eq!(c.get_n(8), 4);
}

#[test]
fn set_flips_only_the_named_bit() {
    let mut c = Children::new(0b1011_0010);
    c.set(2, true);
    assert_eq!(c.child_bits, 0b1011_0110);
    c.set(1, false);
    assert_eq!(c.child_bits, 0b1011_0100);
    c.set(7, false);
    assert_eq!(c.child_bits, 0b0011_0100);
    c.set(0, true);
    assert_eq!(c.child_bits, 0b0011_0101);
}

#[test]
fn count_occupied_counts_all_set_bits() {
    assert_eq!(Children::new(0).count_occupied(), 0);
    assert_eq!(Children::new(0xff).count_occupied(), 8);
    assert_eq!(Children::new(0b1011_0010).count_occupied(), 4);
}

#[test]
fn have_occupied_children_tests_nonzero() {
    assert!(!Children::new(0).have_occupied_children());
    assert!(Children::new(1).have_occupied_children());
    assert!(Children::new(0x80).have_occupied_children());
}
