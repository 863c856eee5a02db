use fourad::{execute, execute_with_roller, parse_diecode, roll, ConstRoller, DieCode, Executor, IterRoller, Modifier};

#[test]
fn executor_test_basic() {
    let mut roller = IterRoller::new(vec![3, 4, 5, 1, 1, 1, 1, 1]);
    assert_eq!(
        execute_with_roller("d6".parse().unwrap(), true, false, &mut roller),
        3
    );
}

#[test]
fn executor_test_basic_exploding() {
    let mut roller = IterRoller::new(vec![6, 6, 3, 4, 5, 1, 1, 1, 1, 1]);
    assert_eq!(
        execute_with_roller("d6".parse().unwrap(), true, false, &mut roller),
        15
    );
}

#[test]
fn executor_test_two_exploding() {
    let mut roller = IterRoller::new(vec![6, 6, 3, 6, 5, 1, 1, 1, 1, 1]);
    assert_eq!(
        execute_with_roller("2d6".parse().unwrap(), true, false, &mut roller),
        26
    );
}

#[test]
fn executor_test_plusmod() {
    let mut roller = IterRoller::new(vec![3, 4, 5, 1, 1, 1, 1, 1]);
    assert_eq!(
        execute_with_roller("d6+4".parse().unwrap(), true, false, &mut roller),
        7
    );
}

#[test]
fn executor_test_minusmod() {
    let mut roller = IterRoller::new(vec![3, 4, 5, 1, 1, 1, 1, 1]);
    assert_eq!(
        execute_with_roller("d6-2".parse().unwrap(), true, false, &mut roller),
        1
    );
}

#[test]
fn executor_test_negative_result() {
    let mut roller = IterRoller::new(vec![3, 4, 5, 1, 1, 1, 1, 1]);
    assert_eq!(
        execute_with_roller("d6-7".parse().unwrap(), true, false, &mut roller),
        -4
    );
}

#[test]
fn executor_test_d66() {
    let mut roller = IterRoller::new(vec![3, 4, 5, 1, 1, 1, 1, 1]);
    assert_eq!(
        execute_with_roller("d66".parse().unwrap(), false, false, &mut roller),
        34
    );
}

#[test]
fn executor_test_d6xd6() {
    let mut roller = IterRoller::new(vec![3, 6, 4, 1, 1, 1, 1, 1]);
    assert_eq!(
        execute_with_roller("d6xd6".parse().unwrap(), false, false, &mut roller),
        18
    );
}

#[test]
fn test_only_explode_d6() {
    let mut roller = IterRoller::new(vec![7, 6, 4, 1, 1, 1, 1, 1]);
    assert_eq!(
        execute_with_roller("2d7".parse().unwrap(), true, false, &mut roller),
        13
    )
}

#[test]
fn test_force_d66() {
    let mut roller = IterRoller::new(vec![5, 6, 4, 1, 1, 1, 1, 1]);
    assert_eq!(
        execute_with_roller("d66".parse().unwrap(), true, false, &mut roller),
        56
    );

    let mut roller = IterRoller::new(vec![5, 6, 4, 1, 1, 1, 1, 1]);
    assert_eq!(
        execute_with_roller("d66".parse().unwrap(), true, true, &mut roller),
        5
    );
}

fn run(code: &str, explode: bool, force_66: bool, faces: Vec<u8>) -> (i16, usize) {
    let mut roller = IterRoller::new(faces);
    let worth = execute_with_roller(parse_diecode(code).unwrap(), explode, force_66, &mut roller);
    (worth, roller.remaining())
}

#[test]
fn a_die_that_shows_no_six_takes_one_face() {
    assert_eq!(run("d6", true, false, vec![3, 4, 5, 1, 1, 1, 1, 1]), (3, 7));
}

#[test]
fn an_exploding_die_takes_faces_up_to_the_first_that_is_no_six() {
    assert_eq!(run("d6", true, false, vec![6, 6, 3, 4, 5]), (15, 2));
}

#[test]
fn the_code_can_ask_for_explosion_itself() {
    assert_eq!(run("d6E", false, false, vec![6, 6, 3, 4, 5]), (15, 2));
    assert_eq!(run("d6", false, false, vec![6, 6, 3, 4, 5]), (6, 4));
}

#[test]
fn a_six_on_a_die_of_other_sides_does_not_explode() {
    assert_eq!(run("d8", true, false, vec![6, 6, 3]), (6, 2));
    assert_eq!(run("d66", true, true, vec![6, 6, 3]), (6, 2));
}

#[test]
fn the_double_die_never_explodes() {
    assert_eq!(run("d66", false, false, vec![3, 4, 5]), (34, 1));
    assert_eq!(run("d66", true, false, vec![3, 4, 5]), (34, 1));
    assert_eq!(run("d66", true, false, vec![6, 6, 5]), (66, 1));
    assert_eq!(run("d66E", true, false, vec![6, 6, 5]), (66, 1));
}

#[test]
fn the_double_die_repeats_and_takes_a_modifier() {
    assert_eq!(run("2d66+1", false, false, vec![1, 2, 3, 4]), (12 + 34 + 1, 0));
}

#[test]
fn the_forced_die_of_sixty_six_sides_is_one_roll() {
    assert_eq!(run("d66", false, true, vec![66, 4]), (66, 1));
    assert_eq!(run("d66", false, true, vec![1, 4]), (1, 1));
}

#[test]
fn factors_multiply() {
    assert_eq!(run("d6xd6", false, false, vec![3, 6]), (18, 0));
    assert_eq!(run("d6xd6xd6", false, false, vec![2, 3, 4]), (24, 0));
    assert_eq!(run("2d6+1xd4-5", false, false, vec![2, 3, 4]), ((2 + 3 + 1) * (4 - 5), 0));
}

#[test]
fn modifiers_add_and_subtract() {
    assert_eq!(run("d6+4", false, false, vec![3]), (7, 0));
    assert_eq!(run("d6-7", false, false, vec![3]), (-4, 0));
    assert_eq!(run("d6-255", false, false, vec![1]), (-254, 0));
    assert_eq!(run("d6+255", false, false, vec![6]), (261, 0));
}

#[test]
fn each_die_of_a_factor_explodes_on_its_own() {
    assert_eq!(run("3d6", true, false, vec![6, 1, 2, 6, 6, 5, 9]), (7 + 2 + 17, 1));
}

#[test]
fn a_result_beyond_sixteen_bits_is_narrowed() {
    // 200 * 200 = 40000, which is 40000 - 65536 in 16 bits
    assert_eq!(run("d200xd200", false, false, vec![200, 200]), (-25536, 0));
    // 255 dice that show 255 each come to 65025, which is 65025 - 65536
    let mut roller = ConstRoller::new(255);
    let code: DieCode = "255d255".parse().unwrap();
    assert_eq!(execute_with_roller(code, false, false, &mut roller), -511);
    // 256 * 256 is a multiple of 65536
    assert_eq!(run("d255+1xd255+1", false, false, vec![255, 255]), (0, 0));
}

#[test]
fn the_same_faces_give_the_same_result() {
    let faces = vec![6, 2, 6, 6, 1, 5, 4, 3, 2, 1];
    let first = run("2d6+3xd66xd8-1E", false, false, faces.clone());
    let second = run("2d6+3xd66xd8-1E", false, false, faces);
    assert_eq!(first, second);
    assert_eq!(first, ((8 + 13 + 3) * 54 * (3 - 1), 2));
}

#[test]
fn a_constant_roller_serves_every_die() {
    let mut roller = ConstRoller::new(3);
    assert_eq!(execute_with_roller(parse_diecode("4d6x2d8+1").unwrap(), true, false, &mut roller), 12 * 7);
}

#[test]
fn the_parts_of_an_evaluation_can_be_called_alone() {
    let executor = Executor { code: parse_diecode("d6E").unwrap(), explode: false, force_66: false };
    assert!(executor.explode());
    assert_eq!(executor.modify(&Modifier::Plus(4), 3), 7);
    assert_eq!(executor.modify(&Modifier::Minus(7), 3), -4);
    assert_eq!(executor.modify(&Modifier::Nothing, 3), 3);
    assert_eq!(executor.modify(&Modifier::Plus(1), 32767), -32768);
    let mut roller = IterRoller::new(vec![6, 6, 2, 4, 5, 6, 6, 1]);
    assert_eq!(executor.roll(6, true, &mut roller), 14);
    assert_eq!(executor.roll(6, false, &mut roller), 4);
    assert_eq!(executor.roll_d66(&mut roller), 56);
    assert_eq!(executor.roll(66, true, &mut roller), 61);
    assert_eq!(roller.remaining(), 0);
    let plain = Executor { code: parse_diecode("d6").unwrap(), explode: false, force_66: false };
    assert!(!plain.explode());
    let mut roller = IterRoller::new(vec![2, 5]);
    assert_eq!(plain.execute_factor(&plain.code.factors[0], &mut roller), 2);
    assert_eq!(plain.execute(&mut roller), 5);
}

#[test]
fn random_dice_stay_on_the_die() {
    for _ in 0..200 {
        let worth = execute(parse_diecode("d6").unwrap(), false, false);
        assert!((1..=6).contains(&worth));
        let worth = roll("3d4+2", false, false).unwrap();
        assert!((5..=14).contains(&worth));
        let worth = roll("d66", false, false).unwrap();
        assert!((11..=66).contains(&worth) && (1..=6).contains(&(worth % 10)));
        let worth = roll("d6", true, false).unwrap();
        assert!(worth >= 1 && worth % 6 != 0);
    }
}

#[test]
fn roll_hands_on_the_faults_of_the_parser() {
    assert!(matches!(roll("0d6", false, false), Err(fourad::FourADError::ZeroRepeats)));
    assert!(matches!(roll("d1", false, false), Err(fourad::FourADError::ZeroOrOneSide)));
    assert!(matches!(roll("d6 d6", false, false), Err(fourad::FourADError::UnexpectedEOL(_))));
}
