use enigma_ga::enigma::{
    can_add_plug, is_plugboard_valid, is_settings_valid, is_triple_unique, Machine, MachineError,
    Settings,
};
use enigma_ga::evolution::{check_termination, keep_best, BestSoFar, Limits, StopReason};
use enigma_ga::fitness::FitnessCalc;
use enigma_ga::gen::{
    cross_rotors, fill_plugboard, gen_plugboard, merge_plugboards, mutate_plugboard, pick_positionally,
    plug_universe, GenError, SettingsBuilder, SettingsCrossover, SettingsMutator,
};
use rand::rngs::StdRng;
use rand::SeedableRng;

const PLAINTEXT: &str = "TO BE OR NOT TO BE THAT IS THE QUESTION WHETHER TIS NOBLER IN THE MIND TO SUFFER THE SLINGS AND ARROWS OF OUTRAGEOUS FORTUNE OR TO TAKE ARMS AGAINST A SEA OF TROUBLES AND BY OPPOSING END THEM TO DIE TO SLEEP NO MORE AND BY A SLEEP TO SAY WE END THE HEARTACHE AND THE THOUSAND NATURAL SHOCKS THAT FLESH IS HEIR TO";

fn known_settings() -> Settings {
    Settings {
        rotors: (2, 5, 3),
        ring_settings: (8, 5, 20),
        rotor_positions: (13, 3, 21),
        plugboard: vec![('A', 'B'), ('C', 'D')],
    }
}

#[test]
fn decrypt_undoes_encrypt() {
    let machine = Machine::new(&known_settings()).unwrap();
    let ciphertext = machine.encrypt(PLAINTEXT);
    assert_ne!(ciphertext, PLAINTEXT);
    assert_eq!(ciphertext.len(), PLAINTEXT.len());
    assert_eq!(machine.decrypt(&ciphertext), PLAINTEXT);
}

#[test]
fn round_trip_under_random_settings() {
    let mut rng = StdRng::seed_from_u64(17);
    let b = SettingsBuilder {};
    let text = "ATTACK AT DAWN, 0600 HOURS; BRING 3 MAPS!";
    for _ in 0..500 {
        let s = b.build_genome(0, &mut rng).unwrap();
        let m = Machine::new(&s).unwrap();
        let c = m.encrypt(text);
        assert_eq!(c.len(), text.len());
        assert_eq!(m.decrypt(&c), text);
        assert_eq!(m.encrypt(&m.decrypt(text)), text);
    }
}

#[test]
fn lower_case_comes_back_upper_case() {
    let m = Machine::new(&known_settings()).unwrap();
    assert_eq!(m.decrypt(&m.encrypt("hello world")), "HELLO WORLD");
}

#[test]
fn machine_refuses_invalid_settings() {
    let mut s = known_settings();
    s.rotors = (2, 2, 3);
    assert_eq!(Machine::new(&s).err(), Some(MachineError::InvalidSettings));
    let mut s = known_settings();
    s.ring_settings = (0, 5, 20);
    assert_eq!(Machine::new(&s).err(), Some(MachineError::InvalidSettings));
    let mut s = known_settings();
    s.plugboard = vec![('A', 'B'), ('B', 'C')];
    assert_eq!(Machine::new(&s).err(), Some(MachineError::InvalidSettings));
}

#[test]
fn triple_uniqueness_checks_all_pairs() {
    assert!(is_triple_unique((1, 2, 3)));
    assert!(!is_triple_unique((1, 1, 3)));
    assert!(!is_triple_unique((1, 3, 3)));
    assert!(!is_triple_unique((3, 1, 3)));
}

#[test]
fn plug_checks() {
    assert!(can_add_plug(&[('A', 'B'), ('C', 'D')], ('E', 'F')));
    assert!(!can_add_plug(&[('A', 'B'), ('C', 'D')], ('D', 'F')));
    assert!(can_add_plug(&[], ('A', 'B')));
    assert!(is_plugboard_valid(&[('A', 'B'), ('C', 'D')]));
    assert!(!is_plugboard_valid(&[('A', 'A')]));
    assert!(!is_plugboard_valid(&[('A', 'B'), ('B', 'C')]));
    let eleven: Vec<(char, char)> = "ABCDEFGHIJKLMNOPQRSTUV"
        .chars()
        .collect::<Vec<char>>()
        .chunks(2)
        .map(|p| (p[0], p[1]))
        .collect();
    assert_eq!(eleven.len(), 11);
    assert!(!is_plugboard_valid(&eleven));
    assert!(is_plugboard_valid(&eleven[..10]));
}

#[test]
fn universe_has_every_pair_once() {
    let u = plug_universe();
    assert_eq!(u.len(), 325);
    assert_eq!(u[0], ('A', 'B'));
    assert_eq!(u[324], ('Y', 'Z'));
    assert!(u.iter().all(|p| p.0 < p.1));
}

#[test]
fn crossover_with_fixed_coins() {
    let x = (1, 2, 3);
    let y = (4, 5, 6);
    assert_eq!(pick_positionally(x, y, (true, false, true)), (1, 5, 3));
    assert_eq!(pick_positionally(x, y, (false, false, false)), (4, 5, 6));

    let p1 = vec![('A', 'B'), ('C', 'D'), ('E', 'F')];
    let p2 = vec![('A', 'C'), ('G', 'H')];
    // index 0 from p2: AC; index 1 from p1: CD clashes with AC; index 2 from p1: EF
    assert_eq!(
        merge_plugboards(&p1, &p2, &[false, true, true]),
        vec![('A', 'C'), ('E', 'F')]
    );
    // index 0 from p1: AB; index 1 from p2: GH; index 2 from p2: none
    assert_eq!(
        merge_plugboards(&p1, &p2, &[true, false, false]),
        vec![('A', 'B'), ('G', 'H')]
    );
}

#[test]
fn crossover_needs_two_parents() {
    let mut rng = StdRng::seed_from_u64(7);
    let c = SettingsCrossover {};
    assert_eq!(c.crossover(&vec![known_settings()], &mut rng).err(), Some(GenError::TooFewParents));
    assert_eq!(c.crossover(&vec![], &mut rng).err(), Some(GenError::TooFewParents));
    let children = c
        .crossover(&vec![known_settings(), known_settings(), known_settings()], &mut rng)
        .unwrap();
    assert_eq!(children.len(), 3);
    assert!(children.iter().all(|s| *s == known_settings()));
}

#[test]
fn rotor_crossover_gives_distinct_rotors() {
    let mut rng = StdRng::seed_from_u64(11);
    for _ in 0..1000 {
        let t = cross_rotors((1, 2, 3), (2, 1, 3), &mut rng).unwrap();
        assert!(t == (1, 2, 3) || t == (2, 1, 3));
    }
}

#[test]
fn mutation_keeps_settings_valid() {
    let mut rng = StdRng::seed_from_u64(3);
    let b = SettingsBuilder {};
    let m = SettingsMutator {};
    for _ in 0..10000 {
        let s = b.build_genome(0, &mut rng).unwrap();
        let t = m.mutate(s.clone(), &mut rng).unwrap();
        assert!(is_settings_valid(&t));
        let unchanged = [
            s.rotors == t.rotors,
            s.ring_settings == t.ring_settings,
            s.rotor_positions == t.rotor_positions,
            s.plugboard == t.plugboard,
        ];
        assert!(unchanged.iter().filter(|u| **u).count() >= 3);
    }
}

#[test]
fn plugboard_mutation_changes_at_most_one_cable() {
    let mut rng = StdRng::seed_from_u64(5);
    assert_eq!(mutate_plugboard(&[], &mut rng).unwrap(), vec![]);
    let p = vec![('A', 'B'), ('C', 'D'), ('E', 'F')];
    for _ in 0..1000 {
        let q = mutate_plugboard(&p, &mut rng).unwrap();
        assert_eq!(q.len(), 3);
        assert!(is_plugboard_valid(&q));
        assert!(p.iter().zip(q.iter()).filter(|(a, b)| a != b).count() <= 1);
    }
}

#[test]
fn random_plugboards_are_valid() {
    let mut rng = StdRng::seed_from_u64(9);
    for _ in 0..1000 {
        let p = gen_plugboard(&mut rng).unwrap();
        assert!(p.len() <= 10);
        assert!(is_plugboard_valid(&p));
    }
}

#[test]
fn termination_reasons() {
    let limits = Limits { generation_limit: 20, time_limit_millis: 1000, target_fitness: 70000 };
    assert_eq!(check_termination(3, 10, 100, &limits), None);
    assert_eq!(check_termination(20, 10, 100, &limits), Some(StopReason::GenerationLimitReached));
    assert_eq!(check_termination(3, 1000, 100, &limits), Some(StopReason::TimedOut));
    assert_eq!(check_termination(3, 10, 70000, &limits), Some(StopReason::Converged));
    assert_eq!(check_termination(20, 1000, 70000, &limits), Some(StopReason::GenerationLimitReached));
}

#[test]
fn best_record_only_improves() {
    let a = known_settings();
    let mut b = known_settings();
    b.rotors = (1, 2, 3);
    let first = keep_best(None, &a, 10);
    assert_eq!(first.fitness, 10);
    let second = keep_best(Some(first), &b, 5);
    assert_eq!(second.fitness, 10);
    assert_eq!(second.settings, a);
    let third = keep_best(Some(second), &b, 12);
    assert_eq!(third.fitness, 12);
    assert_eq!(third.settings, b);
}

#[test]
fn short_search_beats_random_configuration() {
    let secret = known_settings();
    let ciphertext = Machine::new(&secret).unwrap().encrypt(PLAINTEXT);
    let calc = FitnessCalc { ciphertext, max_value: 1000000 };
    let mut rng = StdRng::seed_from_u64(42);
    let builder = SettingsBuilder {};
    let crossover = SettingsCrossover {};
    let mutator = SettingsMutator {};

    let mut population: Vec<Settings> =
        (0..200).map(|i| builder.build_genome(i, &mut rng).unwrap()).collect();
    let random_fitness = calc.fitness_of(&builder.build_genome(0, &mut rng).unwrap());
    let mut best: Option<BestSoFar> = None;
    let mut records = Vec::new();
    let limits = Limits { generation_limit: 20, time_limit_millis: u64::MAX, target_fitness: 1000000 };
    let mut generation: u64 = 0;
    loop {
        let mut scored: Vec<(usize, Settings)> =
            population.iter().map(|s| (calc.fitness_of(s), s.clone())).collect();
        scored.sort_by(|a, b| b.0.cmp(&a.0));
        best = Some(keep_best(best, &scored[0].1, scored[0].0));
        records.push(best.as_ref().unwrap().fitness);
        generation += 1;
        if check_termination(generation, 0, records[records.len() - 1], &limits).is_some() {
            break;
        }
        let elite: Vec<Settings> = scored.iter().take(100).map(|p| p.1.clone()).collect();
        let children = crossover.crossover(&elite, &mut rng).unwrap();
        let mut next: Vec<Settings> = scored.iter().take(100).map(|p| p.1.clone()).collect();
        for c in children {
            next.push(mutator.mutate(c, &mut rng).unwrap());
        }
        assert_eq!(next.len(), 200);
        population = next;
    }
    assert_eq!(records.len(), 20);
    assert!(records.windows(2).all(|w| w[0] <= w[1]));
    assert!(records[19] > random_fitness);
}

#[test]
fn universe_holds_every_ordered_pair() {
    let u = plug_universe();
    for a in 'A'..='Z' {
        for b in 'A'..='Z' {
            assert_eq!(u.contains(&(a, b)), a < b);
        }
    }
}

#[test]
fn fill_plugboard_gives_the_count() {
    let mut rng = StdRng::seed_from_u64(23);
    let u = plug_universe();
    for count in 0..=10 {
        let p = fill_plugboard(count, &u, &mut rng).unwrap();
        assert_eq!(p.len(), count);
        assert!(is_plugboard_valid(&p));
        assert!(p.iter().all(|c| u.contains(c)));
    }
}

#[test]
fn mutate_field_changes_the_named_field() {
    let mut rng = StdRng::seed_from_u64(29);
    let m = SettingsMutator {};
    let s = known_settings();
    for _ in 0..200 {
        let t = m.mutate_field(s.clone(), 1, &mut rng).unwrap();
        assert_eq!((t.rotors, t.rotor_positions, &t.plugboard), (s.rotors, s.rotor_positions, &s.plugboard));
        let t = m.mutate_field(s.clone(), 2, &mut rng).unwrap();
        assert_eq!((t.rotors, t.ring_settings, &t.plugboard), (s.rotors, s.ring_settings, &s.plugboard));
        let t = m.mutate_field(s.clone(), 0, &mut rng).unwrap();
        assert!(is_triple_unique(t.rotors));
        assert_eq!((t.ring_settings, t.rotor_positions, &t.plugboard), (s.ring_settings, s.rotor_positions, &s.plugboard));
    }
    let mut bare = known_settings();
    bare.plugboard = Vec::new();
    assert_eq!(m.mutate_field(bare.clone(), 3, &mut rng).unwrap(), bare);
}
