use vibesurfer::backend::webkit::{click_settle, vs_humanize_seed_for_ref};
use vibesurfer::humanize::keys::{careful_sequence, is_word_boundary, neighbor_letter, KeyStepKind};
use vibesurfer::humanize::rng::Rng;
use vibesurfer::humanize::InputMode;
use vibesurfer::tree::Ref;

#[test]
fn careful_one_down_one_up_per_char() {
    let steps = careful_sequence("hi!");
    assert_eq!(steps.len(), 6);
    let downs = steps.iter().filter(|s| s.kind == KeyStepKind::Down).count();
    let ups = steps.iter().filter(|s| s.kind == KeyStepKind::Up).count();
    assert_eq!(downs, 3);
    assert_eq!(ups, 3);
}

#[test]
fn careful_fixed_cadence() {
    let steps = careful_sequence("abc");
    let down_times: Vec<u128> = steps
        .iter()
        .filter(|s| s.kind == KeyStepKind::Down)
        .map(|s| s.at.as_millis())
        .collect();
    assert_eq!(down_times, vec![0, 50, 100]);
}

#[test]
fn careful_up_follows_down_by_dwell() {
    let steps = careful_sequence("é");
    assert_eq!(steps.len(), 2);
    assert_eq!(steps[0].at.as_millis(), 0);
    assert_eq!(steps[1].at.as_millis(), 25);
    assert_eq!(steps[0].key.character, Some('é'));
    assert_eq!(steps[0].key.code, 'é' as u32);
    assert!(careful_sequence("").is_empty());
}

#[test]
fn deterministic_same_seed() {
    let mut a = Rng::seed_from_u64(42);
    let mut b = Rng::seed_from_u64(42);
    for _ in 0..32 {
        assert_eq!(a.next_u64(), b.next_u64());
    }
}

#[test]
fn different_seeds_diverge() {
    let mut a = Rng::seed_from_u64(1);
    let mut b = Rng::seed_from_u64(2);
    assert_ne!(a.next_u64(), b.next_u64());
}

#[test]
fn word_boundaries() {
    for c in [' ', '\n', '\t', ',', '.', ';', ':'] {
        assert!(is_word_boundary(c));
    }
    assert!(!is_word_boundary('a'));
    assert!(!is_word_boundary('-'));
}

#[test]
fn neighbor_letter_keeps_case_and_skips_non_letters() {
    let mut rng = Rng::seed_from_u64(5);
    let lower = neighbor_letter('a', &mut rng);
    assert!(['s', 'q', 'w', 'z'].contains(&lower));
    let upper = neighbor_letter('P', &mut rng);
    assert!(['O', 'L'].contains(&upper));
    let mut fresh = Rng::seed_from_u64(5);
    let mut same = Rng::seed_from_u64(5);
    assert_eq!(neighbor_letter('7', &mut fresh), '7');
    // A character without neighbours draws nothing from the stream.
    assert_eq!(fresh.next_u64(), same.next_u64());
}

#[test]
fn settle_and_seed_helpers() {
    assert_eq!(click_settle(InputMode::Robotic), (2, 6));
    assert_eq!(click_settle(InputMode::Human), (15, 30));
    assert_eq!(
        vs_humanize_seed_for_ref(Ref(1)),
        0x9E37_79B9_7F4A_7C15u64 ^ 0xDEAD_BEEF_CAFE_BABE
    );
    assert_ne!(vs_humanize_seed_for_ref(Ref(1)), vs_humanize_seed_for_ref(Ref(2)));
}

#[test]
fn keys_robotic_is_empty() {
    let steps = vibesurfer::humanize::keys::key_sequence(
        "hello",
        vibesurfer::humanize::InputMode::Robotic,
        0,
        |_: &str, _: u64| Vec::new(),
    );
    assert!(steps.is_empty());
}

#[test]
fn careful_mode_dispatches_to_the_careful_sequence() {
    let steps = vibesurfer::humanize::keys::key_sequence(
        "hi",
        vibesurfer::humanize::InputMode::Careful,
        0,
        |_: &str, _: u64| Vec::new(),
    );
    assert_eq!(steps, careful_sequence("hi"));
}
