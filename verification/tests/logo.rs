use guitar::logo::{grain, lines, stir, sweep_over, tint, tone, word, Sweep, LEAN, PROFILE, STEPS};

fn art() -> Vec<String> {
    vec![" ##BG  P5 ".to_string(), "?JYa  !71L".to_string(), ".^:~  ####".to_string()]
}

fn flattened(runs: &[(Vec<char>, usize)]) -> String {
    runs.iter().flat_map(|(glyphs, _)| glyphs.iter()).collect()
}

#[test]
fn a_sheen_is_sized_for_whatever_art_it_is_given() {
    let tiny = sweep_over(&["##".to_string()]);
    let huge = sweep_over(&vec!["#".repeat(300); 30]);

    assert!(tiny.crest >= PROFILE.len(), "a crest narrower than the profile would skip steps as it rolled");
    assert!(huge.period > 300, "the crest has to have room to cross the art it is over");
}

#[test]
fn the_sheen_meets_the_resting_colour_at_both_ends() {
    assert_eq!(PROFILE[0], 0, "the sheen has to start where the wordmark rests");
    assert_eq!(PROFILE[PROFILE.len() - 1], 0, "and come back to it rather than ending dark");

    let darkest = PROFILE.iter().position(|step| *step == *PROFILE.iter().max().expect("a profile")).expect("a darkest step");
    assert!(darkest < PROFILE.len() - 1, "there has to be something after the dark section to ease back through");
    assert!(PROFILE[darkest..].windows(2).all(|pair| pair[0] > pair[1]), "and it has to lighten the whole way out: {PROFILE:?}");
}

#[test]
fn the_sheen_lightens_before_it_darkens() {
    let lightest = PROFILE.iter().position(|step| *step == *PROFILE.iter().min().expect("a profile")).expect("a lightest step");
    let darkest = PROFILE.iter().position(|step| *step == *PROFILE.iter().max().expect("a profile")).expect("a darkest step");

    assert!(lightest < darkest, "the light section belongs before the dark one, got {lightest} and {darkest}");
}

#[test]
fn a_sweep_over_small_art_has_the_profile_as_its_crest() {
    let sweep = Sweep::over(10, 3);
    assert_eq!(sweep, Sweep { period: 34, crest: 13 });
    assert_eq!(sweep.crest, STEPS);
}

#[test]
fn at_rest_nothing_is_lit_and_nothing_has_moved() {
    let rows = art();
    let sweep = sweep_over(&rows);
    for (row, text) in rows.iter().enumerate() {
        for column in 0..text.chars().count() {
            assert_eq!(sweep.band(row, column, 0), None);
        }
    }
    let drawn: Vec<String> = lines(&rows, 1, 0).iter().map(|runs| flattened(runs)).collect();
    assert_eq!(drawn, rows);
}

#[test]
fn the_sheen_is_quiet_at_both_ends_of_its_cycle() {
    let rows = art();
    let sweep = sweep_over(&rows);
    for step in [0, sweep.period - 1] {
        let elapsed = (step as u128 * 5200) / sweep.period as u128;
        for (row, text) in rows.iter().enumerate() {
            assert!((0..text.chars().count()).all(|column| sweep.band(row, column, elapsed).is_none()), "step {step} lit row {row}");
        }
    }
}

#[test]
fn every_cell_the_light_touches_rolls_through_the_ramp() {
    let rows = art();
    let sweep = sweep_over(&rows);
    let mut seen: Vec<usize> = (0..6000).filter_map(|ms| sweep.band(1, 4, ms)).collect();
    seen.sort();
    seen.dedup();
    assert_eq!(seen, (0..PROFILE.len()).collect::<Vec<_>>());
}

#[test]
fn the_crest_leans_across_the_rows() {
    let sweep = Sweep::over(40, 10);
    for elapsed in (0..6000).step_by(37) {
        for column in 0..30 {
            assert_eq!(sweep.band(1, column, elapsed), sweep.band(0, column + LEAN, elapsed));
        }
    }
}

#[test]
fn a_swapped_glyph_comes_from_its_own_group_and_a_blank_stays_blank() {
    let groups = ["#BG", "P564b", "?JYCa", "!71L", ".^:~"];
    for elapsed in (0..12_000u128).step_by(47) {
        for row in 0..4 {
            for column in 0..12 {
                for glyph in "#P?!. x".chars() {
                    let after = grain(glyph, row, column, 1, elapsed);
                    match groups.iter().find(|group| group.contains(glyph)) {
                        Some(group) => assert!(group.contains(after), "{glyph:?} became {after:?}"),
                        None => assert_eq!(after, glyph),
                    }
                }
            }
        }
    }
}

#[test]
fn the_grain_keeps_moving_somewhere() {
    let moved = (0..12_000u128).step_by(47).any(|elapsed| (0..12).any(|column| grain('#', 0, column, 1, elapsed) != '#'));
    assert!(moved);
}

#[test]
fn the_grain_is_stirred_hardest_in_the_crest() {
    assert_eq!(stir(None), 18);
    assert_eq!(stir(Some(0)), 7);
    assert_eq!(stir(Some(3)), 4);
    assert_eq!(stir(Some(9)), 4);
    assert_eq!(stir(Some(12)), 7);
}

#[test]
fn the_top_rows_rest_lighter_than_the_rest() {
    let ramp = ['a', 'b', 'c', 'd', 'e', 'f'];
    assert_eq!(tone(0, None, 2, &ramp), 'c');
    assert_eq!(tone(2, None, 2, &ramp), 'd');
    assert_eq!(tone(0, Some(3), 2, &ramp), 'a');
    assert_eq!(tone(5, Some(9), 2, &ramp), 'f');
    assert_eq!(tint(0, 0, &art(), 1, &ramp, 0), 'c');
    assert_eq!(tint(2, 0, &art(), 1, &ramp, 0), 'd');
}

#[test]
fn every_row_keeps_its_width_however_long_it_has_been_up() {
    let rows = art();
    for elapsed in (0..12_000u128).step_by(53) {
        let drawn = lines(&rows, 1, elapsed);
        for (text, runs) in rows.iter().zip(drawn.iter()) {
            assert_eq!(flattened(runs).chars().count(), text.chars().count());
            assert!(runs.iter().all(|(glyphs, _)| !glyphs.is_empty()));
            assert!(runs.windows(2).all(|pair| pair[0].1 != pair[1].1));
        }
    }
}

#[test]
fn the_compact_logo_is_a_word_and_keeps_its_letters() {
    for elapsed in (0..12_000u128).step_by(47) {
        assert_eq!(flattened(&word("guitar", elapsed)), "guitar");
    }
}

#[test]
fn the_compact_logo_still_takes_the_sheen() {
    let at_rest: Vec<usize> = word("guitar", 0).iter().map(|run| run.1).collect();
    assert!((0..12_000u128).step_by(47).any(|elapsed| word("guitar", elapsed).iter().map(|run| run.1).collect::<Vec<_>>() != at_rest));
}

#[test]
fn a_line_groups_cells_by_tone() {
    let sweep = Sweep::over(4, 1);
    let runs = guitar::logo::line(0, "ab  ", 1, &sweep, 0, false);
    assert_eq!(runs, vec![(vec!['a', 'b', ' ', ' '], 2)]);
}
