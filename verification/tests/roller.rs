use fourad::{ConstRoller, IterRoller, RandRoller, Roller};

#[test]
fn base() {
    let mut r = ConstRoller::new(3);
    assert_eq!(r.roll(6), 3);
    assert_eq!(r.roll(6), 3);
    assert_eq!(r.roll(6), 3);
    assert_eq!(r.roll(6), 3);
    assert_eq!(r.roll(6), 3);
}

#[test]
fn test_vec() {
    let vec = vec![2u8, 3, 5, 4];

    let mut r = IterRoller::new(vec);
    assert_eq!(r.roll(6), 2);
    assert_eq!(r.roll(6), 3);
    assert_eq!(r.roll(6), 5);
    assert_eq!(r.roll(6), 4);
}

#[test]
fn test_repeat() {
    let mut r = IterRoller::new(vec![2; 6]);
    assert_eq!(r.roll(6), 2);
    assert_eq!(r.roll(6), 2);
    assert_eq!(r.roll(6), 2);
    assert_eq!(r.roll(6), 2);
    assert_eq!(r.roll(6), 2);
    assert_eq!(r.roll(6), 2);
}

#[test]
fn a_script_counts_down() {
    let mut r = IterRoller::new(vec![9, 8]);
    assert_eq!(r.remaining(), 2);
    assert_eq!(r.roll(2), 9);
    assert_eq!(r.remaining(), 1);
    assert_eq!(r.roll(200), 8);
    assert_eq!(r.remaining(), 0);
}

#[test]
fn random_faces_lie_on_the_die() {
    let mut r = RandRoller::default();
    let mut seen = [false; 6];
    for _ in 0..2000 {
        let face = r.roll(6);
        assert!((1..=6).contains(&face));
        seen[(face - 1) as usize] = true;
    }
    assert!(seen.iter().all(|&s| s));
    for _ in 0..200 {
        assert_eq!(r.roll(1), 1);
        assert!((1..=2).contains(&r.roll(2)));
    }
    let mut below = false;
    for _ in 0..2000 {
        let face = r.roll(255);
        assert!(face >= 1);
        below = below || face < 255;
    }
    assert!(below);
}

#[test]
fn a_tracing_roller_hands_on_and_keeps_the_faces() {
    let mut r = fourad::TracingRoller::new(IterRoller::new(vec![6, 6, 2, 4]));
    assert!(r.faces().is_empty());
    assert_eq!(r.roll(6), 6);
    assert_eq!(r.faces(), &vec![6]);
    let code = fourad::parse_diecode("d6xd4").unwrap();
    assert_eq!(fourad::execute_with_roller(code, true, false, &mut r), 8 * 4);
    assert_eq!(r.faces(), &vec![6, 6, 2, 4]);
}

#[test]
fn a_script_can_be_tested_before_it_is_played() {
    let code = fourad::parse_diecode("2d6xd66").unwrap();
    assert!(IterRoller::new(vec![1, 2, 3, 4]).suffices(&code, false, false));
    assert!(!IterRoller::new(vec![1, 2, 3]).suffices(&code, false, false));
    assert!(IterRoller::new(vec![1, 2, 3]).suffices(&code, false, true));
    assert!(!IterRoller::new(vec![6, 2, 3, 4]).suffices(&code, true, false));
    assert!(IterRoller::new(vec![6, 2, 3, 4, 5]).suffices(&code, true, false));
    assert!(!IterRoller::new(vec![]).suffices(&code, false, false));
    let mut played = IterRoller::new(vec![9, 1, 2, 3, 4]);
    assert_eq!(played.roll(6), 9);
    assert!(played.suffices(&code, false, false));
    assert_eq!(played.roll(6), 1);
    assert!(!played.suffices(&code, false, false));
}

struct Climbing {
    next: u8,
}

impl Roller for Climbing {
    fn roll(&mut self, sides: u8) -> u8 {
        let face = self.next;
        self.next = if face >= sides { 1 } else { face + 1 };
        face
    }
}

#[test]
fn a_roller_of_ones_own_serves_an_evaluation() {
    let mut roller = Climbing { next: 5 };
    let code = fourad::parse_diecode("3d6+1xd4").unwrap();
    // 5, then 6 and 1 on the die that explodes, then 2; then 3 on the four-sided die
    assert_eq!(fourad::execute_with_roller(code, true, false, &mut roller), (5 + 7 + 2 + 1) * 3);
    let mut traced = fourad::TracingRoller::new(Climbing { next: 1 });
    assert_eq!(traced.roll(3), 1);
    assert_eq!(traced.roll(3), 2);
    assert_eq!(traced.roll(3), 3);
    assert_eq!(traced.roll(3), 1);
    assert_eq!(traced.faces(), &vec![1, 2, 3, 1]);
}
