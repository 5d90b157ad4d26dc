use pos2d::sampling::Standard;
use pos2d::Pos;

#[test]
fn rand_test_pos_rand() {
    Pos::random();
}

#[test]
fn tests_test_pos_rand() {
    Pos::random();
}

#[test]
fn uniform_strategy_samples_from_caller_source() {
    let mut rng = rand::thread_rng();
    let a = Standard.sample(&mut rng);
    let b = Standard.sample(&mut rng);
    // Nothing is promised of the values; the calls must simply work.
    let _ = a.to_pair();
    let _ = b.to_pair();
}
