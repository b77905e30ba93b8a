use genetic_password_guess::{
    create_chromosome, create_population, crossover, generation, get_score, mutate, selection,
    Fraction, ScoreError,
};

fn chrom(s: &str) -> Vec<char> {
    s.chars().collect()
}

#[test]
fn should_create_chromosome() {
    let size = 8;
    let answer = create_chromosome(size);

    assert_eq!(answer.len(), size);
}

#[test]
fn should_score_string() {
    let chromosone = chrom("ayfuwpts");
    let answer = chrom("afuuwtss");

    let expected_result = 0.5;

    let score = get_score(&chromosone, &answer).unwrap();
    assert_eq!(score.matches as f32 / score.out_of as f32, expected_result);
}

#[test]
fn should_select_chromosomes() {
    let mut chromosomes = vec![
        chrom("afuuwtss"),
        chrom("afuuwtsz"),
        chrom("afuuwtzz"),
        chrom("afuuwzzz"),
        chrom("afuuzzzz"),
        chrom("afuzzzzz"),
        chrom("afzzzzzz"),
        chrom("azzzzzzz"),
        chrom("zzzzzzzz"),
        chrom("zzzzzzza"),
        chrom("zzzzzzaa"),
    ];
    let graded_retain_percent = Fraction::new(3, 10).unwrap();
    let nongraded_retain_percent = Fraction::new(2, 10).unwrap();
    let answer = chrom("afuuwtss");
    let mut selected = selection(
        &mut chromosomes,
        graded_retain_percent,
        nongraded_retain_percent,
        &answer,
    );
    let expected_selected = vec![chrom("afuuwtss"), chrom("afuuwtsz"), chrom("afuuwtzz")];
    let expected_length = 5;

    assert_eq!(selected.len(), expected_length);

    for expected in &expected_selected {
        assert!(selected.contains(expected));
    }

    selected.sort();
    selected.dedup();
    assert_eq!(selected.len(), expected_length);
}

#[test]
fn should_crossover_two_chromosones() {
    let chromosone_one = chrom("AAAAAAAA");
    let chromosone_two = chrom("BBBBBBBB");
    let result = crossover(&chromosone_one, &chromosone_two);
    let expected_result = chrom("AAAABBBB");

    assert_eq!(result, expected_result);
}

#[test]
fn should_mutate_chromosone() {
    // The freshly drawn character can coincide with the replaced one, so the
    // observable change is probabilistic: retry until the mutation shows.
    let chromosone = chrom("aaaaaa");
    for _ in 0..200 {
        let mutated = mutate(&chromosone);
        if mutated != chromosone {
            let a_count = mutated.iter().filter(|c| **c == 'a').count();
            let expected = 5;
            assert_ne!(chromosone, mutated);
            assert_eq!(a_count, expected);
            return;
        }
    }
    panic!("mutation never produced a visible change");
}

#[test]
fn should_create_a_population() {
    let population = create_population(10, 8);

    assert_eq!(population.len(), 10);
    assert_eq!(population[0].len(), 8);
}

#[test]
fn score_of_target_against_itself_is_one() {
    let answer = chrom("KeyboardCat");
    let score = get_score(&answer, &answer).unwrap();
    assert_eq!(score.matches, score.out_of);
    assert_eq!(score.matches as f32 / score.out_of as f32, 1.0);
}

#[test]
fn score_is_deterministic() {
    let chromosone = chrom("ayfuwpts");
    let answer = chrom("afuuwtss");
    let first = get_score(&chromosone, &answer).unwrap();
    let second = get_score(&chromosone, &answer).unwrap();
    assert_eq!(first, second);
}

#[test]
fn score_fails_on_unequal_lengths() {
    let shorter = chrom("abc");
    let answer = chrom("abcd");
    assert!(matches!(
        get_score(&shorter, &answer),
        Err(ScoreError::LengthMismatch)
    ));
    assert!(matches!(
        get_score(&answer, &shorter),
        Err(ScoreError::LengthMismatch)
    ));
}

#[test]
fn fraction_rejects_misconfiguration() {
    assert!(Fraction::new(1, 0).is_none());
    assert!(Fraction::new(5, 4).is_none());
    assert!(Fraction::new(0, 1).is_some());
    assert!(Fraction::new(1, 1).is_some());
}

#[test]
fn selection_caps_the_random_draw_by_the_remainder() {
    // Graded retention keeps everything, so no low-ranked chromosomes remain
    // for the random draw and the output is the whole population.
    let mut chromosomes = vec![chrom("ab"), chrom("cd"), chrom("ef"), chrom("gh")];
    let graded = Fraction::new(1, 1).unwrap();
    let nongraded = Fraction::new(1, 2).unwrap();
    let answer = chrom("ab");
    let selected = selection(&mut chromosomes, graded, nongraded, &answer);
    assert_eq!(selected.len(), 4);
}

#[test]
fn mutate_changes_at_most_one_position() {
    let chromosone = chrom("Zx0yQ9rT");
    let mutated = mutate(&chromosone);
    assert_eq!(mutated.len(), chromosone.len());
    let changed = mutated
        .iter()
        .zip(chromosone.iter())
        .filter(|(a, b)| a != b)
        .count();
    assert!(changed <= 1);
    for c in &mutated {
        assert!(c.is_ascii_alphanumeric() || chromosone.contains(c));
    }
}

#[test]
fn population_chromosomes_are_alphanumeric() {
    let population = create_population(6, 12);
    assert_eq!(population.len(), 6);
    for chromosone in &population {
        assert_eq!(chromosone.len(), 12);
        for c in chromosone {
            assert!(c.is_ascii_alphanumeric());
        }
    }
}

#[test]
fn generation_keeps_size_and_best_score() {
    let answer = chrom("KeBo");
    let mut population = vec![
        chrom("KeBa"),
        chrom("KeBb"),
        chrom("KeBc"),
        chrom("KaBo"),
        chrom("KbBo"),
        chrom("KcBo"),
        chrom("xxxx"),
        chrom("yyyy"),
        chrom("zzzz"),
        chrom("wwww"),
    ];
    let graded = Fraction::new(3, 10).unwrap();
    let nongraded = Fraction::new(2, 10).unwrap();
    let best_before = population
        .iter()
        .map(|c| get_score(c, &answer).unwrap().matches)
        .max()
        .unwrap();
    for _ in 0..5 {
        population = generation(population, graded, nongraded, &answer);
        assert_eq!(population.len(), 10);
        for chromosone in &population {
            assert_eq!(chromosone.len(), answer.len());
        }
        let best_now = population
            .iter()
            .map(|c| get_score(c, &answer).unwrap().matches)
            .max()
            .unwrap();
        assert!(best_now >= best_before);
    }
}

#[test]
fn should_find_answer_over_generations() {
    let answer = chrom("KeBo");
    let graded = Fraction::new(3, 10).unwrap();
    let nongraded = Fraction::new(2, 10).unwrap();
    for _restart in 0..5 {
        let mut population = vec![
            chrom("KeBa"),
            chrom("KeBb"),
            chrom("KeBc"),
            chrom("KeBd"),
            chrom("KeBe"),
            chrom("KaBo"),
            chrom("KbBo"),
            chrom("KcBo"),
            chrom("KdBo"),
            chrom("KfBo"),
        ];
        for _ in 0..10_000 {
            if population.iter().any(|c| *c == answer) {
                return;
            }
            population = generation(population, graded, nongraded, &answer);
        }
    }
    panic!("the target was never reconstructed within the generation bound");
}
