use enigma_ga::coincidence::{index_of_coincidence, letter_coincidence, scale_coincidence, Coincidence};
use enigma_ga::enigma::{is_settings_valid, Machine, Settings};
use enigma_ga::fitness::{CachedFitness, FitnessCalc};
use enigma_ga::gen::{SettingsBuilder, SettingsCrossover};
use rand::rngs::StdRng;
use rand::SeedableRng;

const LONG_TEXT: &str = "To be, or not to be, that is the question: \
    Whether 'tis nobler in the mind to suffer \
    The slings and arrows of outrageous fortune, \
    Or to take arms against a sea of troubles \
    And by opposing end them.";

fn ratio(c: Coincidence) -> f64 {
    c.numerator as f64 / c.denominator as f64
}

fn close(a: f64, b: f64) -> bool {
    let diff = (a - b).abs();
    diff <= f64::EPSILON || diff <= a.abs().max(b.abs()) * f64::EPSILON
}

#[test]
fn test_ioc() {
    assert!(close(ratio(index_of_coincidence("")), 0.0));
    assert!(close(ratio(index_of_coincidence("A")), 0.0));
    assert!(close(ratio(index_of_coincidence("AB")), 0.0));
    assert!(close(ratio(index_of_coincidence("ABAA")), 0.5));
    assert!(close(ratio(index_of_coincidence(LONG_TEXT)), 0.07034743722050224));
}

#[test]
fn test_fitness() {
    let settings = Settings {
        rotors: (2, 5, 3),
        ring_settings: (8, 5, 20),
        rotor_positions: (13, 3, 21),
        plugboard: vec![('A', 'B'), ('C', 'D')],
    };

    let machine = Machine::new(&settings).unwrap();
    let ciphertext = machine.encrypt(LONG_TEXT);

    let calc = FitnessCalc {
        ciphertext: ciphertext.to_owned(),
        max_value: 1000000,
    };

    let mut closer_settings = settings.clone();
    closer_settings.rotor_positions = (13, 3, 22);

    let wrong_settings = Settings {
        rotors: (1, 2, 3),
        ring_settings: (1, 1, 1),
        rotor_positions: (1, 1, 1),
        plugboard: Vec::new(),
    };

    assert_eq!(calc.fitness_of(&settings), 70347);
    assert_eq!(calc.fitness_of(&closer_settings), 39388);
    assert_eq!(calc.fitness_of(&wrong_settings), 36722);
}

#[test]
fn test_settings_builder() {
    let mut rng = StdRng::from_entropy();
    let b = SettingsBuilder {};

    for _ in 0..10000 {
        let sett = b.build_genome(0, &mut rng).unwrap();
        assert!(is_settings_valid(&sett))
    }
}

#[test]
fn test_settings_crossover() {
    let mut rng = StdRng::from_entropy();
    let b = SettingsBuilder {};
    let c = SettingsCrossover {};

    for _ in 0..10000 {
        let sett1 = b.build_genome(0, &mut rng).unwrap();
        let sett2 = b.build_genome(0, &mut rng).unwrap();

        let offsprings = c.crossover(&vec![sett1.clone(), sett2.clone()], &mut rng).unwrap();

        assert!(offsprings.iter().all(is_settings_valid))
    }
}

#[test]
fn ioc_counts_are_exact() {
    assert_eq!(index_of_coincidence(""), Coincidence { numerator: 0, denominator: 1 });
    assert_eq!(index_of_coincidence("A"), Coincidence { numerator: 0, denominator: 1 });
    assert_eq!(index_of_coincidence("AB"), Coincidence { numerator: 0, denominator: 2 });
    assert_eq!(index_of_coincidence("ABAA"), Coincidence { numerator: 6, denominator: 12 });
}

#[test]
fn ioc_folds_case_and_skips_non_letters() {
    assert_eq!(index_of_coincidence("a, b a! A"), Coincidence { numerator: 6, denominator: 12 });
    assert_eq!(index_of_coincidence("1 2 3 ."), Coincidence { numerator: 0, denominator: 1 });
}

#[test]
fn letter_coincidence_counts_as_given() {
    let text: Vec<char> = "aAaB".chars().collect();
    assert_eq!(letter_coincidence(&text), Coincidence { numerator: 2, denominator: 12 });
}

#[test]
fn scaling_rounds_to_nearest() {
    assert_eq!(scale_coincidence(Coincidence { numerator: 6, denominator: 12 }, 1000000), 500000);
    assert_eq!(scale_coincidence(Coincidence { numerator: 1, denominator: 3 }, 10), 3);
    assert_eq!(scale_coincidence(Coincidence { numerator: 2, denominator: 3 }, 10), 7);
    assert_eq!(scale_coincidence(Coincidence { numerator: 1, denominator: 2 }, 1), 1);
    assert_eq!(scale_coincidence(Coincidence { numerator: 0, denominator: 1 }, 1000), 0);
    assert_eq!(scale_coincidence(Coincidence { numerator: 5, denominator: 5 }, usize::MAX), usize::MAX);
}

#[test]
fn score_of_long_text() {
    let calc = FitnessCalc { ciphertext: String::new(), max_value: 1000000 };
    assert_eq!(calc.score_text(LONG_TEXT), 70347);
    assert_eq!(calc.score_text("ABAA"), 500000);
}

#[test]
fn average_rounds_down() {
    let calc = FitnessCalc { ciphertext: String::new(), max_value: 10 };
    assert_eq!(calc.average(&[1, 2, 4]), 2);
    assert_eq!(calc.average(&[usize::MAX, usize::MAX]), usize::MAX);
    assert_eq!(calc.highest_possible_fitness(), 10);
    assert_eq!(calc.lowest_possible_fitness(), 0);
}

#[test]
fn cached_score_repeats_and_matches_uncached() {
    let settings = Settings {
        rotors: (2, 5, 3),
        ring_settings: (8, 5, 20),
        rotor_positions: (13, 3, 21),
        plugboard: vec![('A', 'B'), ('C', 'D')],
    };
    let ciphertext = Machine::new(&settings).unwrap().encrypt(LONG_TEXT);
    let calc = FitnessCalc { ciphertext: ciphertext.clone(), max_value: 1000000 };
    let direct = calc.fitness_of(&settings);
    let mut cached = CachedFitness::new(FitnessCalc { ciphertext, max_value: 1000000 }, 100);
    assert_eq!(cached.decryptions(), 0);
    let first = cached.score(&settings);
    assert_eq!(cached.decryptions(), 1);
    let second = cached.score(&settings);
    assert_eq!(cached.decryptions(), 1);
    assert_eq!(first, direct);
    assert_eq!(second, first);
    assert_eq!(cached.calc().max_value, 1000000);
}
