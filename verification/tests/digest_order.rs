use trie_repair::digest::Digest;

fn digest_with(at: usize, byte: u8) -> Digest {
    let mut bytes = [0u8; 32];
    bytes[at] = byte;
    Digest::new(bytes)
}

#[test]
fn new_keeps_the_bytes() {
    let mut bytes = [7u8; 32];
    bytes[3] = 9;
    assert_eq!(Digest::new(bytes).bytes, bytes);
}

#[test]
fn a_digest_is_the_same_as_itself() {
    let d = digest_with(5, 200);
    assert!(d == d);
    assert!(d == digest_with(5, 200));
    assert!(!d.lt(&d));
}

#[test]
fn digests_that_differ_in_one_byte_are_not_the_same() {
    for at in 0..32 {
        assert!(Digest::new([0u8; 32]) != digest_with(at, 1));
        assert!(!(Digest::new([0u8; 32]) == digest_with(at, 1)));
    }
}

#[test]
fn the_first_differing_byte_decides() {
    // An early small difference outweighs a late large one.
    let mut low = [0u8; 32];
    low[0] = 1;
    low[31] = 255;
    let mut high = [0u8; 32];
    high[0] = 2;
    let low = Digest::new(low);
    let high = Digest::new(high);
    assert!(low.lt(&high));
    assert!(!high.lt(&low));
}

#[test]
fn the_order_reads_bytes_from_the_front() {
    let front = digest_with(0, 1);
    let back = digest_with(31, 1);
    assert!(back.lt(&front));
    assert!(!front.lt(&back));
}

#[test]
fn the_last_byte_decides_when_all_before_agree() {
    let mut a = [9u8; 32];
    let mut b = [9u8; 32];
    a[31] = 3;
    b[31] = 4;
    assert!(Digest::new(a).lt(&Digest::new(b)));
    assert!(!Digest::new(b).lt(&Digest::new(a)));
}

#[test]
fn bytes_compare_unsigned() {
    let small = digest_with(0, 0x7f);
    let large = digest_with(0, 0x80);
    assert!(small.lt(&large));
    assert!(!large.lt(&small));
}

#[test]
fn exactly_one_of_before_same_after_holds() {
    let samples = [
        Digest::new([0u8; 32]),
        digest_with(31, 1),
        digest_with(16, 1),
        digest_with(0, 1),
        Digest::new([255u8; 32]),
    ];
    for (i, a) in samples.iter().enumerate() {
        for (j, b) in samples.iter().enumerate() {
            let holds = [a.lt(b), a == b, b.lt(a)];
            assert_eq!(holds.iter().filter(|h| **h).count(), 1);
            assert_eq!(a.lt(b), i < j);
        }
    }
}

#[test]
fn the_order_is_transitive_on_samples() {
    let samples = [digest_with(31, 5), digest_with(30, 1), digest_with(2, 9), digest_with(0, 1)];
    for a in samples.iter() {
        for b in samples.iter() {
            for c in samples.iter() {
                if a.lt(b) && b.lt(c) {
                    assert!(a.lt(c));
                }
            }
        }
    }
}
